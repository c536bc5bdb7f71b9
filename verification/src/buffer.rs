use vstd::prelude::*;

verus! {

/// A decoded track held in memory and played as a source: interleaved
/// sample words, the stream's channel count and rate, and a read
/// position. Its duration follows from the sample count alone.
pub struct SamplesBuffer {
    pub data: Vec<u32>,
    pub channels: u16,
    pub sample_rate: u32,
    pub pos: usize,
}

impl SamplesBuffer {
    pub open spec fn wf(self) -> bool {
        &&& self.channels >= 1
        &&& self.sample_rate >= 1
        &&& self.pos <= self.data@.len()
        &&& self.data@.len() <= 0xffff_ffff
    }

    /// The samples not yet read.
    pub open spec fn remaining(self) -> Seq<u32> {
        self.data@.skip(self.pos as int)
    }

    /// Whole-stream duration in nanoseconds:
    /// `len * 1e9 / rate / channels`.
    pub open spec fn spec_duration_ns(self) -> int {
        self.data@.len() * 1_000_000_000int / (self.sample_rate as int) / (self.channels as int)
    }

    /// Build a source over decoded samples. A zero channel count or rate
    /// has no meaning and stays out by contract.
    pub fn new(channels: u16, sample_rate: u32, data: Vec<u32>) -> (b: SamplesBuffer)
        requires
            channels >= 1,
            sample_rate >= 1,
            data@.len() <= 0xffff_ffff,
        ensures
            b.wf(),
            b.data@ == data@,
            b.channels == channels,
            b.sample_rate == sample_rate,
            b.pos == 0,
            b.remaining() == data@,
    {
        let b = SamplesBuffer { data, channels, sample_rate, pos: 0 };
        proof {
            assert(b.remaining() =~= b.data@);
        }
        b
    }

    pub fn channels(&self) -> (c: u16)
        ensures
            c == self.channels,
    {
        self.channels
    }

    pub fn sample_rate(&self) -> (r: u32)
        ensures
            r == self.sample_rate,
    {
        self.sample_rate
    }

    /// The stream length is not chunked: there is no current frame bound.
    pub fn current_frame_len(&self) -> (r: Option<usize>)
        ensures
            r is None,
    {
        None
    }

    /// Whole-stream duration in nanoseconds.
    pub fn total_duration(&self) -> (d: u64)
        requires
            self.wf(),
        ensures
            d == self.spec_duration_ns(),
    {
        let ns: u64 = 1_000_000_000u64 * (self.data.len() as u64) / (self.sample_rate as u64)
            / (self.channels as u64);
        proof {
            assert(self.data@.len() * 1_000_000_000int == 1_000_000_000int * self.data@.len())
                by (nonlinear_arith);
        }
        ns
    }

    /// Milliseconds already read off the stream.
    pub fn elapsed_ms(&self) -> (e: u64)
        requires
            self.wf(),
        ensures
            e == self.pos * 1000int / (self.sample_rate as int) / (self.channels as int),
    {
        1000u64 * (self.pos as u64) / (self.sample_rate as u64) / (self.channels as u64)
    }

    /// The next sample, `None` at the end of the stream.
    pub fn next(&mut self) -> (r: Option<u32>)
        requires
            old(self).wf(),
        ensures
            final(self).wf(),
            final(self).data@ == old(self).data@,
            final(self).channels == old(self).channels,
            final(self).sample_rate == old(self).sample_rate,
            old(self).remaining().len() == 0 ==> r is None && final(self).pos == old(self).pos,
            old(self).remaining().len() > 0 ==> r == Some(old(self).remaining()[0])
                && final(self).remaining() == old(self).remaining().drop_first(),
    {
        if self.pos < self.data.len() {
            let s = self.data[self.pos];
            self.pos = self.pos + 1;
            proof {
                assert(final(self).remaining() =~= old(self).remaining().drop_first());
            }
            Some(s)
        } else {
            None
        }
    }

    /// Best-effort seek: skip ahead by the sample count nearest to
    /// `ms` milliseconds, clamped to the end of the stream.
    pub fn seek(&mut self, ms: u64)
        requires
            old(self).wf(),
            ms <= 4_000_000_000,
        ensures
            final(self).wf(),
            final(self).data@ == old(self).data@,
            final(self).channels == old(self).channels,
            final(self).sample_rate == old(self).sample_rate,
            final(self).pos == spec_min_int(
                old(self).pos + (old(self).sample_rate * (old(self).channels as int) * ms
                    + 500) / 1000,
                old(self).data@.len() as int,
            ),
    {
        proof {
            assert((self.sample_rate as int) * (self.channels as int) <= 0xffff_ffff_ffff_ffff)
                by (nonlinear_arith)
                requires
                    self.sample_rate <= u32::MAX,
                    self.channels <= u16::MAX,
            ;
            assert((self.sample_rate as int) * (self.channels as int) * (ms as int) + 500
                <= u128::MAX) by (nonlinear_arith)
                requires
                    0 <= (self.sample_rate as int) * (self.channels as int)
                        <= 0xffff_ffff_ffff_ffff,
                    ms <= 4_000_000_000,
            ;
        }
        let step: u128 = ((self.sample_rate as u128) * (self.channels as u128) * (ms as u128)
            + 500) / 1000;
        let len = self.data.len();
        let remaining: u128 = (len - self.pos) as u128;
        if step < remaining {
            self.pos = self.pos + (step as usize);
        } else {
            self.pos = len;
        }
    }
}

pub open spec fn spec_min_int(a: int, b: int) -> int {
    if a < b {
        a
    } else {
        b
    }
}

} // verus!
