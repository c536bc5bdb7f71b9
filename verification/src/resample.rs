use vstd::prelude::*;

use vstd::arithmetic::div_mod::{
    lemma_div_denominator, lemma_div_is_ordered, lemma_div_multiples_vanish,
    lemma_div_pos_is_pos, lemma_fundamental_div_mod, lemma_fundamental_div_mod_converse,
    lemma_mod_multiples_basic,
};

verus! {

/// Greatest common divisor, by Euclid.
pub open spec fn gcd_spec(a: nat, b: nat) -> nat
    decreases b,
{
    if b == 0 {
        a
    } else {
        gcd_spec(b, a % b)
    }
}

/// The divisor divides both arguments and is positive when the first is.
pub proof fn lemma_gcd_divides(a: nat, b: nat)
    requires
        a > 0,
    ensures
        gcd_spec(a, b) > 0,
        a % gcd_spec(a, b) == 0,
        b % gcd_spec(a, b) == 0,
    decreases b,
{
    let g = gcd_spec(a, b);
    if b == 0 {
        assert(a % a == 0) by {
            lemma_mod_multiples_basic(1, a as int);
        }
        assert(b % a == 0) by {
            lemma_mod_multiples_basic(0, a as int);
        }
    } else {
        lemma_gcd_divides(b, a % b);
        assert(g == gcd_spec(b, a % b));
        assert(b % g == 0);
        assert((a % b) % g == 0);
        lemma_fundamental_div_mod(a as int, b as int);
        assert(a == b * (a as int / b as int) + a % b);
        let q = a as int / b as int;
        assert(q >= 0) by {
            lemma_div_pos_is_pos(a as int, b as int);
        }
        assert((b * q) % (g as int) == 0) by {
            lemma_mod_of_multiple(b as int, q, g as int);
        }
        assert(a % g == 0) by {
            vstd::arithmetic::div_mod::lemma_add_mod_noop(
                b as int * q,
                (a % b) as int,
                g as int,
            );
            vstd::arithmetic::div_mod::lemma_small_mod(0, g);
            assert(a as int == b as int * q + (a % b) as int);
        }
    }
}

/// A multiple of a multiple of `m` is still a multiple of `m`.
proof fn lemma_mod_of_multiple(x: int, q: int, m: int)
    requires
        m > 0,
        x % m == 0,
    ensures
        (x * q) % m == 0,
{
    vstd::arithmetic::div_mod::lemma_mul_mod_noop_left(x, q, m);
    assert((x % m) * q == 0) by (nonlinear_arith)
        requires
            x % m == 0,
    ;
    vstd::arithmetic::div_mod::lemma_small_mod(0, m as nat);
}

/// Greatest common divisor of two sample rates.
pub fn gcd(a: u32, b: u32) -> (r: u32)
    ensures
        r == gcd_spec(a as nat, b as nat),
    decreases b,
{
    if b == 0 {
        a
    } else {
        gcd(b, a % b)
    }
}

/// One output sample of the converter: either an input sample passed
/// through unchanged, or a pair of adjacent input samples to blend at
/// `num / den` of the way from `first` to `second`.
#[derive(Debug, PartialEq, Eq, Structural, Clone, Copy)]
pub enum OutSample {
    Copy { word: u32 },
    Mix { first: u32, second: u32, num: u32, den: u32 },
}

/// Converts interleaved sample words from one rate to another, one output
/// sample at a time, by linear interpolation between adjacent input
/// frames. For `N` input frames and rates `from`/`to` it yields exactly
/// `floor(N * to / from)` output frames; equal rates pass every sample
/// through bit-identically.
pub struct SampleRateConverter {
    pub input: Vec<u32>,
    pub channels: usize,
    pub from: u32,
    pub to: u32,
    pub pos: usize,
}

impl SampleRateConverter {
    pub open spec fn wf(self) -> bool {
        &&& self.channels >= 1
        &&& self.from >= 1
        &&& self.to >= 1
        &&& self.input@.len() as int % (self.channels as int) == 0
        &&& self.input@.len() * self.to <= usize::MAX
    }

    pub open spec fn spec_input(self) -> Seq<u32> {
        self.input@
    }

    pub open spec fn spec_channels(self) -> int {
        self.channels as int
    }

    pub open spec fn spec_from(self) -> int {
        self.from as int
    }

    pub open spec fn spec_to(self) -> int {
        self.to as int
    }

    pub open spec fn spec_pos(self) -> int {
        self.pos as int
    }

    /// Number of input frames.
    pub open spec fn frames(self) -> int {
        self.input@.len() as int / (self.channels as int)
    }

    /// Number of output frames: `floor(frames * to / from)`.
    pub open spec fn out_frames(self) -> int {
        (self.frames() * self.to) / (self.from as int)
    }

    /// Number of output samples over all channels.
    pub open spec fn total_out(self) -> int {
        self.out_frames() * self.channels
    }

    /// The output sample at output frame `k`, channel `c`: input frame
    /// `i = floor(k * from / to)` is due; with no remainder the sample
    /// passes through, otherwise frames `i` and `i + 1` blend at
    /// `(k * from mod to) / to` — except at the stream's very end, where
    /// the last frame drains unblended.
    pub open spec fn step(self, k: int, c: int) -> OutSample {
        let i = (k * self.from) / (self.to as int);
        let num = (k * self.from) % (self.to as int);
        let idx = i * self.channels + c;
        if num == 0 {
            OutSample::Copy { word: self.input@[idx] }
        } else if i + 1 < self.frames() {
            OutSample::Mix {
                first: self.input@[idx],
                second: self.input@[idx + self.channels],
                num: num as u32,
                den: self.to,
            }
        } else {
            OutSample::Copy { word: self.input@[idx] }
        }
    }

    /// Set up a converter. The rates reduce by their greatest common
    /// divisor, which leaves every output unchanged: in particular the
    /// output frame count stays `floor(frames * to_rate / from_rate)`.
    pub fn new(input: Vec<u32>, channels: usize, from_rate: u32, to_rate: u32) -> (c:
        SampleRateConverter)
        requires
            channels >= 1,
            from_rate >= 1,
            to_rate >= 1,
            input@.len() as int % (channels as int) == 0,
            input@.len() * to_rate <= usize::MAX,
        ensures
            c.wf(),
            c.spec_input() == input@,
            c.spec_channels() == channels,
            c.spec_pos() == 0,
            c.out_frames() == (input@.len() as int / (channels as int)) * to_rate / (
            from_rate as int),
            c.spec_from() * to_rate == c.spec_to() * from_rate,
    {
        let g = gcd(from_rate, to_rate);
        proof {
            lemma_gcd_divides(from_rate as nat, to_rate as nat);
        }
        let from = from_rate / g;
        let to = to_rate / g;
        proof {
            lemma_reduce_keeps_ratio(from_rate as int, to_rate as int, g as int);
            lemma_out_frames_reduce(
                input@.len() as int / (channels as int),
                from_rate as int,
                to_rate as int,
                g as int,
            );
            assert(to <= to_rate) by {
                vstd::arithmetic::div_mod::lemma_div_is_ordered_by_denominator(
                    to_rate as int,
                    1,
                    g as int,
                );
            }
            assert(input@.len() * to <= input@.len() * to_rate) by (nonlinear_arith)
                requires
                    0 <= to <= to_rate,
            ;
        }
        SampleRateConverter { input, channels, from, to, pos: 0 }
    }

    /// Swap in a fresh input stream; both positions reset to zero and the
    /// rates stay.
    pub fn update(&mut self, input: Vec<u32>)
        requires
            old(self).wf(),
            input@.len() as int % (old(self).spec_channels()) == 0,
            input@.len() * old(self).spec_to() <= usize::MAX,
        ensures
            final(self).wf(),
            final(self).spec_input() == input@,
            final(self).spec_channels() == old(self).spec_channels(),
            final(self).spec_from() == old(self).spec_from(),
            final(self).spec_to() == old(self).spec_to(),
            final(self).spec_pos() == 0,
    {
        self.input = input;
        self.pos = 0;
    }

    /// How many output samples the converter yields in all.
    pub fn output_len(&self) -> (n: usize)
        requires
            self.wf(),
        ensures
            n == self.total_out(),
    {
        let ch = self.channels;
        let frames = self.input.len() / ch;
        proof {
            lemma_total_out_bound(self.input@.len() as int, ch as int, self.from as int, self.to as int);
        }
        let of = frames * (self.to as usize) / (self.from as usize);
        of * ch
    }

    /// The next output sample, `None` once `floor(frames * to / from)`
    /// output frames have been yielded.
    pub fn next(&mut self) -> (r: Option<OutSample>)
        requires
            old(self).wf(),
        ensures
            final(self).wf(),
            final(self).spec_input() == old(self).spec_input(),
            final(self).spec_channels() == old(self).spec_channels(),
            final(self).spec_from() == old(self).spec_from(),
            final(self).spec_to() == old(self).spec_to(),
            old(self).spec_pos() < old(self).total_out() ==> {
                &&& r == Some(
                    old(self).step(
                        old(self).spec_pos() / old(self).spec_channels(),
                        old(self).spec_pos() % old(self).spec_channels(),
                    ),
                )
                &&& final(self).spec_pos() == old(self).spec_pos() + 1
            },
            old(self).spec_pos() >= old(self).total_out() ==> r is None && final(self).spec_pos()
                == old(self).spec_pos(),
    {
        let ch = self.channels;
        let frames = self.input.len() / ch;
        proof {
            lemma_total_out_bound(self.input@.len() as int, ch as int, self.from as int, self.to as int);
        }
        let of = frames * (self.to as usize) / (self.from as usize);
        let total = of * ch;
        if self.pos >= total {
            return None;
        }
        let k = self.pos / ch;
        let c = self.pos % ch;
        proof {
            assert(k < of) by {
                lemma_pos_frame_bound(self.pos as int, ch as int, of as int);
            }
            lemma_step_index_bound(frames as int, self.from as int, self.to as int, k as int);
            assert(k * self.from <= frames * (self.to as int)) by (nonlinear_arith)
                requires
                    0 <= k,
                    0 <= self.from,
                    0 <= self.to,
                    0 <= frames,
                    k * self.from <= frames * (self.to as int) - 1,
            ;
            assert(frames * (self.to as int) <= self.input@.len() * (self.to as int))
                by (nonlinear_arith)
                requires
                    0 <= frames <= self.input@.len(),
                    0 <= self.to,
            ;
        }
        let scaled = k * (self.from as usize);
        let i = scaled / (self.to as usize);
        let num = scaled % (self.to as usize);
        proof {
            assert(i * ch + c < frames * ch) by (nonlinear_arith)
                requires
                    0 <= i < frames,
                    0 <= c < ch,
            ;
            assert(frames * ch == self.input@.len()) by {
                lemma_fundamental_div_mod(self.input@.len() as int, ch as int);
            }
            assert((i + 1) * ch + c == i * ch + c + ch) by (nonlinear_arith);
            assert(num < self.to) by {
                vstd::arithmetic::div_mod::lemma_mod_bound(scaled as int, self.to as int);
            }
        }
        let idx = i * ch + c;
        let r = if num == 0 {
            OutSample::Copy { word: self.input[idx] }
        } else if i + 1 < frames {
            proof {
                assert((i + 1) * ch + c < frames * ch) by (nonlinear_arith)
                    requires
                        0 <= i,
                        i + 1 < frames,
                        0 <= c < ch,
                ;
            }
            OutSample::Mix {
                first: self.input[idx],
                second: self.input[idx + ch],
                num: num as u32,
                den: self.to,
            }
        } else {
            OutSample::Copy { word: self.input[idx] }
        };
        self.pos = self.pos + 1;
        Some(r)
    }
}

/// Reducing both rates by a common divisor keeps their ratio exact.
proof fn lemma_reduce_keeps_ratio(f: int, t: int, g: int)
    requires
        f > 0,
        t > 0,
        g > 0,
        f % g == 0,
        t % g == 0,
    ensures
        (f / g) * t == (t / g) * f,
        f / g >= 1,
        t / g >= 1,
{
    lemma_fundamental_div_mod(f, g);
    lemma_fundamental_div_mod(t, g);
    assert(f == g * (f / g));
    assert(t == g * (t / g));
    assert((f / g) * (g * (t / g)) == (t / g) * (g * (f / g))) by (nonlinear_arith);
    assert(f / g >= 1 && t / g >= 1) by (nonlinear_arith)
        requires
            f == g * (f / g),
            t == g * (t / g),
            f > 0,
            t > 0,
            g > 0,
    ;
}

/// The output frame count is the same before and after reducing the rates
/// by their common divisor.
proof fn lemma_out_frames_reduce(n: int, f: int, t: int, g: int)
    requires
        n >= 0,
        f > 0,
        t > 0,
        g > 0,
        f % g == 0,
        t % g == 0,
    ensures
        (n * (t / g)) / (f / g) == (n * t) / f,
{
    let fr = f / g;
    let tr = t / g;
    lemma_fundamental_div_mod(f, g);
    lemma_fundamental_div_mod(t, g);
    assert(f == g * fr);
    assert(t == g * tr);
    assert(fr >= 1 && tr >= 1) by (nonlinear_arith)
        requires
            f == g * fr,
            t == g * tr,
            f > 0,
            t > 0,
            g > 0,
    ;
    assert(n * t == g * (n * tr)) by (nonlinear_arith)
        requires
            t == g * tr,
    ;
    // strip the common factor from numerator and denominator
    lemma_div_denominator(g * (n * tr), g, fr);
    assert((g * (n * tr)) / g == n * tr) by {
        lemma_div_multiples_vanish(n * tr, g);
    }
}

/// A sample position below the total lies in an output frame below the
/// frame count.
proof fn lemma_pos_frame_bound(pos: int, ch: int, of: int)
    requires
        ch >= 1,
        0 <= pos < of * ch,
    ensures
        pos / ch < of,
{
    lemma_fundamental_div_mod(pos, ch);
    assert(pos / ch < of) by (nonlinear_arith)
        requires
            ch >= 1,
            pos == ch * (pos / ch) + pos % ch,
            0 <= pos % ch < ch,
            pos < of * ch,
            pos >= 0,
            pos / ch >= 0,
    ;
    assert(pos / ch >= 0) by {
        lemma_div_pos_is_pos(pos, ch);
    }
}

/// Every output frame below the count draws on an input frame that
/// exists.
proof fn lemma_step_index_bound(frames: int, from: int, to: int, k: int)
    requires
        from >= 1,
        to >= 1,
        frames >= 0,
        0 <= k < (frames * to) / from,
    ensures
        k * from <= frames * to - 1,
        0 <= (k * from) / to < frames,
{
    let kk = (frames * to) / from;
    lemma_fundamental_div_mod(frames * to, from);
    assert(frames * to >= 0) by (nonlinear_arith)
        requires
            frames >= 0,
            to >= 0,
    ;
    assert(kk * from <= frames * to) by (nonlinear_arith)
        requires
            frames * to == from * kk + (frames * to) % from,
            0 <= (frames * to) % from,
    ;
    assert(k * from <= kk * from - from) by (nonlinear_arith)
        requires
            k <= kk - 1,
            from >= 1,
            k >= 0,
    ;
    assert(k * from >= 0) by (nonlinear_arith)
        requires
            k >= 0,
            from >= 0,
    ;
    // k * from <= frames * to - 1, so its frame stays below `frames`
    lemma_div_is_ordered(k * from, frames * to - 1, to);
    assert((frames * to - 1) / to == frames - 1) by {
        assert(frames >= 1) by (nonlinear_arith)
            requires
                0 <= k < (frames * to) / from,
                frames * to == from * ((frames * to) / from) + (frames * to) % from,
                0 <= (frames * to) % from < from,
                from >= 1,
                to >= 1,
                frames >= 0,
        ;
        assert(frames * to - 1 == to * (frames - 1) + (to - 1)) by (nonlinear_arith);
        lemma_fundamental_div_mod_converse(frames * to - 1, to, frames - 1, to - 1);
    }
    assert((k * from) / to >= 0) by {
        lemma_div_pos_is_pos(k * from, to);
    }
}

/// All the output fits a machine word count.
proof fn lemma_total_out_bound(len: int, ch: int, from: int, to: int)
    requires
        ch >= 1,
        from >= 1,
        to >= 1,
        len >= 0,
        len % ch == 0,
        len * to <= usize::MAX,
    ensures
        (len / ch) * to <= usize::MAX,
        ((len / ch) * to / from) * ch <= usize::MAX,
        (len / ch) >= 0,
{
    let frames = len / ch;
    lemma_fundamental_div_mod(len, ch);
    assert(frames >= 0) by {
        lemma_div_pos_is_pos(len, ch);
    }
    assert(frames <= len) by (nonlinear_arith)
        requires
            len == ch * frames + len % ch,
            0 <= len % ch,
            ch >= 1,
            frames >= 0,
    ;
    assert(frames * to <= len * to) by (nonlinear_arith)
        requires
            0 <= frames <= len,
            to >= 0,
    ;
    let of = frames * to / from;
    lemma_fundamental_div_mod(frames * to, from);
    assert(of >= 0) by {
        assert(frames * to >= 0) by (nonlinear_arith)
            requires
                frames >= 0,
                to >= 0,
        ;
        lemma_div_pos_is_pos(frames * to, from);
    }
    assert(of <= frames * to) by {
        vstd::arithmetic::div_mod::lemma_div_nonincreasing(frames * to, from);
    }
    assert(of * ch <= frames * to * ch) by (nonlinear_arith)
        requires
            0 <= of <= frames * to,
            ch >= 0,
    ;
    assert(frames * to * ch == (frames * ch) * to) by (nonlinear_arith);
    assert(frames * ch == len - len % ch) by (nonlinear_arith)
        requires
            len == ch * frames + len % ch,
    ;
    assert((frames * ch) * to <= len * to) by (nonlinear_arith)
        requires
            0 <= frames * ch <= len,
            to >= 0,
            len % ch == 0,
            frames * ch == len - len % ch,
    ;
}

/// With equal rates the converter is a bit-identical pass-through: every
/// output sample is the input sample at the same position, and the output
/// count equals the input count.
pub proof fn lemma_pass_through(c: SampleRateConverter, k: int, ch: int)
    requires
        c.wf(),
        c.spec_from() == c.spec_to(),
        0 <= k < c.out_frames(),
        0 <= ch < c.spec_channels(),
    ensures
        c.out_frames() == c.frames(),
        c.step(k, ch) == (OutSample::Copy { word: c.spec_input()[k * c.spec_channels() + ch] }),
{
    let t = c.spec_to();
    assert((c.frames() * t) / t == c.frames()) by {
        lemma_div_multiples_vanish(c.frames(), t);
        assert(c.frames() * t == t * c.frames()) by (nonlinear_arith);
    }
    assert((k * t) % t == 0) by {
        lemma_mod_multiples_basic(k, t);
    }
    assert((k * t) / t == k) by {
        lemma_div_multiples_vanish(k, t);
        assert(k * t == t * k) by (nonlinear_arith);
    }
}

} // verus!
