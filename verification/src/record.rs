use vstd::prelude::*;

use crate::error::Error;
use crate::song::{find_byte, lemma_find_byte, lemma_find_byte_at};
use crate::text;

verus! {

/// Space for the four NUL-terminated text fields of one packed song record.
pub const TEXT_LEN: usize = 510;

/// Size of one packed song record: the text block plus a track byte and a
/// disc byte.
pub const SONG_LEN: usize = 512;

/// One song as it lies in a playlist file or the library file: `name`,
/// `album`, `artist` and `path`, each NUL-terminated, packed into a
/// `TEXT_LEN`-byte block, followed by the track and disc numbers.
#[derive(Debug, Clone)]
pub struct RawSong {
    pub name: Vec<u8>,
    pub album: Vec<u8>,
    pub artist: Vec<u8>,
    pub path: Vec<u8>,
    pub number: u8,
    pub disc: u8,
}

impl RawSong {
    pub open spec fn key(self) -> (Seq<u8>, Seq<u8>, Seq<u8>, Seq<u8>, u8, u8) {
        (self.name@, self.album@, self.artist@, self.path@, self.number, self.disc)
    }

    /// A record can be packed when no field carries a NUL of its own and
    /// the four fields with their terminators fit the text block.
    pub open spec fn wf(self) -> bool {
        &&& no_nul(self.name@)
        &&& no_nul(self.album@)
        &&& no_nul(self.artist@)
        &&& no_nul(self.path@)
        &&& self.name@.len() + self.album@.len() + self.artist@.len() + self.path@.len() + 4
            <= TEXT_LEN
    }
}

impl PartialEq for RawSong {
    fn eq(&self, other: &RawSong) -> (r: bool) {
        text::bytes_eq(&self.name, &other.name) && text::bytes_eq(&self.album, &other.album)
            && text::bytes_eq(&self.artist, &other.artist) && text::bytes_eq(
            &self.path,
            &other.path,
        ) && self.number == other.number && self.disc == other.disc
    }
}

impl vstd::std_specs::cmp::PartialEqSpecImpl for RawSong {
    open spec fn obeys_eq_spec() -> bool {
        true
    }

    open spec fn eq_spec(&self, other: &RawSong) -> bool {
        self.key() == other.key()
    }
}

pub open spec fn no_nul(s: Seq<u8>) -> bool {
    forall|i: int| 0 <= i < s.len() ==> #[trigger] s[i] != 0
}

pub open spec fn zeros(n: nat) -> Seq<u8> {
    Seq::new(n, |i: int| 0u8)
}

/// The text block: the four fields, each closed by a NUL, padded with
/// zeros.
pub open spec fn encode_text(name: Seq<u8>, album: Seq<u8>, artist: Seq<u8>, path: Seq<u8>) -> Seq<
    u8,
> {
    let body = name + zeros(1) + album + zeros(1) + artist + zeros(1) + path + zeros(1);
    body + zeros((TEXT_LEN - body.len()) as nat)
}

/// The whole packed record.
pub open spec fn encode_record(s: RawSong) -> Seq<u8> {
    encode_text(s.name@, s.album@, s.artist@, s.path@) + seq![s.number, s.disc]
}

/// Split a byte text at its first NUL: the field before it and the rest
/// after it. `None` when no NUL is left.
pub open spec fn cut(s: Seq<u8>) -> Option<(Seq<u8>, Seq<u8>)> {
    let p = find_byte(s, 0);
    if p < s.len() {
        Some((s.take(p), s.skip(p + 1)))
    } else {
        None
    }
}

/// The four fields of a text block, when all four terminators are present.
pub open spec fn parse_text(text: Seq<u8>) -> Option<(Seq<u8>, Seq<u8>, Seq<u8>, Seq<u8>)> {
    match cut(text) {
        None => None,
        Some((name, r1)) => match cut(r1) {
            None => None,
            Some((album, r2)) => match cut(r2) {
                None => None,
                Some((artist, r3)) => match cut(r3) {
                    None => None,
                    Some((path, _)) => Some((name, album, artist, path)),
                },
            },
        },
    }
}

/// The record a `SONG_LEN`-byte block holds, when its text block parses.
pub open spec fn parse_record(rec: Seq<u8>) -> Option<(Seq<u8>, Seq<u8>, Seq<u8>, Seq<u8>, u8, u8)> {
    match parse_text(rec.take(TEXT_LEN as int)) {
        None => None,
        Some((name, album, artist, path)) => Some(
            (name, album, artist, path, rec[TEXT_LEN as int], rec[TEXT_LEN + 1]),
        ),
    }
}

/// Splitting at the first NUL undoes terminating a NUL-free field.
pub proof fn lemma_cut_concat(a: Seq<u8>, rest: Seq<u8>)
    requires
        no_nul(a),
    ensures
        cut(a + zeros(1) + rest) == Some((a, rest)),
{
    let s = a + zeros(1) + rest;
    assert(s[a.len() as int] == 0);
    assert forall|k: int| 0 <= k < a.len() implies s[k] != 0 by {
        assert(s[k] == a[k]);
    }
    lemma_find_byte_at(s, 0, a.len() as int);
    assert(s.take(a.len() as int) =~= a);
    assert(s.skip(a.len() as int + 1) =~= rest);
}

/// Unpacking a packed record yields exactly the record that went in.
pub proof fn lemma_record_round_trip(s: RawSong)
    requires
        s.wf(),
    ensures
        parse_record(encode_record(s)) == Some(s.key()),
{
    let text = encode_text(s.name@, s.album@, s.artist@, s.path@);
    let body = s.name@ + zeros(1) + s.album@ + zeros(1) + s.artist@ + zeros(1) + s.path@ + zeros(1);
    let pad = zeros((TEXT_LEN - body.len()) as nat);
    let rec = encode_record(s);
    assert(text.len() == TEXT_LEN);
    assert(rec.take(TEXT_LEN as int) =~= text);
    let r1 = s.album@ + zeros(1) + s.artist@ + zeros(1) + s.path@ + zeros(1) + pad;
    assert(text =~= s.name@ + zeros(1) + r1);
    lemma_cut_concat(s.name@, r1);
    let r2 = s.artist@ + zeros(1) + s.path@ + zeros(1) + pad;
    assert(r1 =~= s.album@ + zeros(1) + r2);
    lemma_cut_concat(s.album@, r2);
    let r3 = s.path@ + zeros(1) + pad;
    assert(r2 =~= s.artist@ + zeros(1) + r3);
    lemma_cut_concat(s.artist@, r3);
    lemma_cut_concat(s.path@, pad);
    assert(r3 == s.path@ + zeros(1) + pad);
    assert(rec[TEXT_LEN as int] == s.number);
    assert(rec[TEXT_LEN + 1] == s.disc);
}

/// Append a whole text to a byte vector.
pub fn push_all(out: &mut Vec<u8>, s: &Vec<u8>)
    requires
        old(out)@.len() + s@.len() <= usize::MAX,
    ensures
        final(out)@ == old(out)@ + s@,
{
    let ghost start = out@;
    let n = s.len();
    let mut i: usize = 0;
    while i < n
        invariant
            n == s@.len(),
            i <= n,
            out@ =~= start + s@.subrange(0, i as int),
            start.len() + n <= usize::MAX,
        decreases n - i,
    {
        out.push(s[i]);
        i = i + 1;
    }
    assert(out@ =~= start + s@);
}

impl RawSong {
    pub fn new(name: Vec<u8>, album: Vec<u8>, artist: Vec<u8>, path: Vec<u8>, number: u8, disc: u8)
        -> (r: RawSong)
        ensures
            r.key() == (name@, album@, artist@, path@, number, disc),
    {
        RawSong { name, album, artist, path, number, disc }
    }

    /// Whether the record can be packed (`wf` decided at run time).
    pub fn fits(&self) -> (r: bool)
        ensures
            r == self.wf(),
    {
        let within = self.name.len() <= TEXT_LEN && self.album.len() <= TEXT_LEN
            && self.artist.len() <= TEXT_LEN && self.path.len() <= TEXT_LEN;
        if !within {
            return false;
        }
        no_nul_bytes(&self.name) && no_nul_bytes(&self.album) && no_nul_bytes(&self.artist)
            && no_nul_bytes(&self.path) && self.name.len() + self.album.len() + self.artist.len()
            + self.path.len() + 4 <= TEXT_LEN
    }

    /// Pack the record into its `SONG_LEN` bytes.
    pub fn into_bytes(&self) -> (out: Vec<u8>)
        requires
            self.wf(),
        ensures
            out@ == encode_record(*self),
            out@.len() == SONG_LEN,
    {
        let mut out: Vec<u8> = Vec::new();
        push_all(&mut out, &self.name);
        out.push(0);
        push_all(&mut out, &self.album);
        out.push(0);
        push_all(&mut out, &self.artist);
        out.push(0);
        push_all(&mut out, &self.path);
        out.push(0);
        let ghost body = self.name@ + zeros(1) + self.album@ + zeros(1) + self.artist@ + zeros(1)
            + self.path@ + zeros(1);
        assert(out@ =~= body);
        while out.len() < TEXT_LEN
            invariant
                body.len() <= out@.len() <= TEXT_LEN,
                out@ =~= body + zeros((out@.len() - body.len()) as nat),
            decreases TEXT_LEN - out@.len(),
        {
            out.push(0);
            assert(out@ =~= body + zeros((out@.len() - body.len()) as nat));
        }
        out.push(self.number);
        out.push(self.disc);
        assert(out@ =~= encode_record(*self));
        out
    }
}

/// Whether a text is free of NUL bytes.
pub fn no_nul_bytes(s: &Vec<u8>) -> (r: bool)
    ensures
        r == no_nul(s@),
{
    let n = s.len();
    let mut i: usize = 0;
    while i < n
        invariant
            n == s@.len(),
            i <= n,
            forall|k: int| 0 <= k < i ==> #[trigger] s@[k] != 0,
        decreases n - i,
    {
        if s[i] == 0 {
            return false;
        }
        i = i + 1;
    }
    true
}

/// Find the first NUL at or after `start`; `None` when the rest is
/// NUL-free.
fn find_nul(bytes: &Vec<u8>, start: usize, limit: usize) -> (r: Option<usize>)
    requires
        start <= limit <= bytes@.len(),
    ensures
        match r {
            Some(p) => start <= p < limit && bytes@[p as int] == 0 && forall|k: int|
                start <= k < p ==> #[trigger] bytes@[k] != 0,
            None => forall|k: int| start <= k < limit ==> #[trigger] bytes@[k] != 0,
        },
{
    let mut i: usize = start;
    while i < limit
        invariant
            start <= i <= limit <= bytes@.len(),
            forall|k: int| start <= k < i ==> #[trigger] bytes@[k] != 0,
        decreases limit - i,
    {
        if bytes[i] == 0 {
            return Some(i);
        }
        i = i + 1;
    }
    None
}

/// Copy `bytes[from..to]` out as an owned field.
fn copy_range(bytes: &Vec<u8>, from: usize, to: usize) -> (out: Vec<u8>)
    requires
        from <= to <= bytes@.len(),
    ensures
        out@ == bytes@.subrange(from as int, to as int),
{
    let mut out: Vec<u8> = Vec::new();
    let mut i: usize = from;
    while i < to
        invariant
            from <= i <= to <= bytes@.len(),
            out@ =~= bytes@.subrange(from as int, i as int),
        decreases to - i,
    {
        out.push(bytes[i]);
        i = i + 1;
        assert(out@ =~= bytes@.subrange(from as int, i as int));
    }
    out
}

/// Unpack the record lying at `off`. A text block missing one of its four
/// terminators is corrupt data.
#[verifier::rlimit(60)]
pub fn decode_record(bytes: &Vec<u8>, off: usize) -> (r: Result<RawSong, Error>)
    requires
        off + SONG_LEN <= bytes@.len(),
    ensures
        match r {
            Ok(s) => parse_record(bytes@.subrange(off as int, off + SONG_LEN)) == Some(s.key()),
            Err(e) => e == Error::CorruptData && parse_record(
                bytes@.subrange(off as int, off + SONG_LEN),
            ) is None,
        },
{
    let ghost rec = bytes@.subrange(off as int, off + SONG_LEN);
    let ghost t = rec.take(TEXT_LEN as int);
    let n = bytes.len();
    let limit = off + TEXT_LEN;
    proof {
        assert(forall|k: int| 0 <= k < TEXT_LEN ==> t[k] == bytes@[off + k]);
    }

    let p0 = match find_nul(bytes, off, limit) {
        Some(p) => p,
        None => {
            proof {
                lemma_find_byte(t, 0);
                lemma_no_cut(t);
            }
            return Err(Error::CorruptData);
        },
    };
    proof {
        lemma_find_byte_at(t, 0, p0 - off);
        assert(cut(t) == Some((t.take(p0 - off), t.skip(p0 - off + 1))));
    }
    let ghost r1 = t.skip(p0 - off + 1);
    proof {
        assert(forall|k: int| 0 <= k < r1.len() ==> r1[k] == bytes@[p0 + 1 + k]);
    }
    let p1 = match find_nul(bytes, p0 + 1, limit) {
        Some(p) => p,
        None => {
            proof {
                lemma_find_byte(r1, 0);
                lemma_no_cut(r1);
            }
            return Err(Error::CorruptData);
        },
    };
    proof {
        lemma_find_byte_at(r1, 0, p1 - (p0 + 1));
    }
    let ghost r2 = r1.skip(p1 - (p0 + 1) + 1);
    proof {
        assert(forall|k: int| 0 <= k < r2.len() ==> r2[k] == bytes@[p1 + 1 + k]);
    }
    let p2 = match find_nul(bytes, p1 + 1, limit) {
        Some(p) => p,
        None => {
            proof {
                lemma_find_byte(r2, 0);
                lemma_no_cut(r2);
            }
            return Err(Error::CorruptData);
        },
    };
    proof {
        lemma_find_byte_at(r2, 0, p2 - (p1 + 1));
    }
    let ghost r3 = r2.skip(p2 - (p1 + 1) + 1);
    proof {
        assert(forall|k: int| 0 <= k < r3.len() ==> r3[k] == bytes@[p2 + 1 + k]);
    }
    let p3 = match find_nul(bytes, p2 + 1, limit) {
        Some(p) => p,
        None => {
            proof {
                lemma_find_byte(r3, 0);
                lemma_no_cut(r3);
            }
            return Err(Error::CorruptData);
        },
    };
    proof {
        lemma_find_byte_at(r3, 0, p3 - (p2 + 1));
    }

    let name = copy_range(bytes, off, p0);
    let album = copy_range(bytes, p0 + 1, p1);
    let artist = copy_range(bytes, p1 + 1, p2);
    let path = copy_range(bytes, p2 + 1, p3);
    let number = bytes[off + TEXT_LEN];
    let disc = bytes[off + TEXT_LEN + 1];
    proof {
        assert(name@ =~= t.take(p0 - off));
        assert(album@ =~= r1.take(p1 - (p0 + 1)));
        assert(artist@ =~= r2.take(p2 - (p1 + 1)));
        assert(path@ =~= r3.take(p3 - (p2 + 1)));
        assert(rec[TEXT_LEN as int] == number);
        assert(rec[TEXT_LEN + 1] == disc);
    }
    Ok(RawSong { name, album, artist, path, number, disc })
}

/// A text with no NUL in it does not split.
proof fn lemma_no_cut(s: Seq<u8>)
    requires
        no_nul(s),
    ensures
        cut(s) is None,
{
    lemma_find_byte(s, 0);
    let p = find_byte(s, 0);
    if p < s.len() {
        assert(s[p] == 0);
    }
}

/// The first NUL-terminated field of a text block, if its terminator is
/// present.
pub open spec fn field1(t: Seq<u8>) -> Option<Seq<u8>> {
    match cut(t) {
        Some((a, _)) => Some(a),
        None => None,
    }
}

/// The second field.
pub open spec fn field2(t: Seq<u8>) -> Option<Seq<u8>> {
    match cut(t) {
        Some((_, r)) => field1(r),
        None => None,
    }
}

/// The third field.
pub open spec fn field3(t: Seq<u8>) -> Option<Seq<u8>> {
    match cut(t) {
        Some((_, r)) => field2(r),
        None => None,
    }
}

/// The fourth field.
pub open spec fn field4(t: Seq<u8>) -> Option<Seq<u8>> {
    match cut(t) {
        Some((_, r)) => field3(r),
        None => None,
    }
}

/// Step past the field that starts at `start`: the position after its
/// terminator, when one is present.
fn skip_field(text: &Vec<u8>, start: usize) -> (r: Option<usize>)
    requires
        start <= text@.len(),
    ensures
        match r {
            Some(p) => start < p <= text@.len() && (match cut(text@.skip(start as int)) {
                Some(pair) => text@.skip(p as int) == pair.1,
                None => false,
            }),
            None => cut(text@.skip(start as int)) is None,
        },
{
    let ghost t = text@.skip(start as int);
    proof {
        assert(forall|k: int| 0 <= k < t.len() ==> t[k] == text@[start + k]);
    }
    match find_nul(text, start, text.len()) {
        Some(p) => {
            proof {
                lemma_find_byte_at(t, 0, p - start);
                assert(text@.skip(p + 1) =~= t.skip(p - start + 1));
            }
            Some(p + 1)
        },
        None => {
            proof {
                lemma_find_byte(t, 0);
            }
            None
        },
    }
}

/// Read the field that starts at `start`, up to its terminator.
fn read_field(text: &Vec<u8>, start: usize) -> (r: Option<Vec<u8>>)
    requires
        start <= text@.len(),
    ensures
        match r {
            Some(v) => field1(text@.skip(start as int)) == Some(v@),
            None => field1(text@.skip(start as int)) is None,
        },
{
    let ghost t = text@.skip(start as int);
    proof {
        assert(forall|k: int| 0 <= k < t.len() ==> t[k] == text@[start + k]);
    }
    match find_nul(text, start, text.len()) {
        Some(p) => {
            proof {
                lemma_find_byte_at(t, 0, p - start);
            }
            let v = copy_range(text, start, p);
            proof {
                assert(v@ =~= t.take(p - start));
            }
            Some(v)
        },
        None => {
            proof {
                lemma_find_byte(t, 0);
            }
            None
        },
    }
}

/// The song name packed at the head of a text block.
pub fn name(text: &Vec<u8>) -> (r: Option<Vec<u8>>)
    ensures
        match r {
            Some(v) => field1(text@) == Some(v@),
            None => field1(text@) is None,
        },
{
    proof {
        assert(text@.skip(0) =~= text@);
    }
    read_field(text, 0)
}

/// The album, packed second.
pub fn album(text: &Vec<u8>) -> (r: Option<Vec<u8>>)
    ensures
        match r {
            Some(v) => field2(text@) == Some(v@),
            None => field2(text@) is None,
        },
{
    proof {
        assert(text@.skip(0) =~= text@);
    }
    match skip_field(text, 0) {
        Some(p1) => read_field(text, p1),
        None => None,
    }
}

/// The artist, packed third.
pub fn artist(text: &Vec<u8>) -> (r: Option<Vec<u8>>)
    ensures
        match r {
            Some(v) => field3(text@) == Some(v@),
            None => field3(text@) is None,
        },
{
    proof {
        assert(text@.skip(0) =~= text@);
    }
    match skip_field(text, 0) {
        Some(p1) => match skip_field(text, p1) {
            Some(p2) => read_field(text, p2),
            None => None,
        },
        None => None,
    }
}

/// The file path, packed fourth.
pub fn path(text: &Vec<u8>) -> (r: Option<Vec<u8>>)
    ensures
        match r {
            Some(v) => field4(text@) == Some(v@),
            None => field4(text@) is None,
        },
{
    proof {
        assert(text@.skip(0) =~= text@);
    }
    match skip_field(text, 0) {
        Some(p1) => match skip_field(text, p1) {
            Some(p2) => match skip_field(text, p2) {
                Some(p3) => read_field(text, p3),
                None => None,
            },
            None => None,
        },
        None => None,
    }
}

} // verus!
