use vstd::prelude::*;

use crate::error::Error;
use crate::index::Index;
use crate::record::{
    decode_record, encode_record, parse_record, zeros, RawSong, SONG_LEN,
};

verus! {

/// A named, ordered list of song records, persisted as one file.
///
/// On disk: two little-endian bytes of name length, the name itself, one
/// reserved zero byte, then the packed song records back to back. Reading
/// stops at the end of the file or at the first short record.
#[derive(Debug)]
pub struct RawPlaylist {
    pub name: Vec<u8>,
    pub songs: Vec<RawSong>,
}

impl RawPlaylist {
    /// The playlist as its name and the keys of its records.
    pub open spec fn key(self) -> (Seq<u8>, Seq<(Seq<u8>, Seq<u8>, Seq<u8>, Seq<u8>, u8, u8)>) {
        (self.name@, self.songs@.map_values(|s: RawSong| s.key()))
    }

    /// Serializable: the name length fits its two header bytes and every
    /// record packs.
    pub open spec fn wf(self) -> bool {
        &&& self.name@.len() <= u16::MAX
        &&& forall|i: int| 0 <= i < self.songs@.len() ==> (#[trigger] self.songs@[i]).wf()
    }

    pub fn new(name: Vec<u8>) -> (r: RawPlaylist)
        ensures
            r.name@ == name@,
            r.songs@.len() == 0,
    {
        RawPlaylist { name, songs: Vec::new() }
    }

    pub fn push(&mut self, song: RawSong)
        requires
            old(self).songs@.len() < usize::MAX,
        ensures
            final(self).name@ == old(self).name@,
            final(self).songs@ == old(self).songs@.push(song),
    {
        self.songs.push(song);
    }
}

/// The packed records, back to back.
pub open spec fn encode_records(songs: Seq<RawSong>) -> Seq<u8>
    decreases songs.len(),
{
    if songs.len() == 0 {
        Seq::empty()
    } else {
        encode_record(songs.first()) + encode_records(songs.drop_first())
    }
}

/// The whole playlist file.
pub open spec fn encode_playlist(p: RawPlaylist) -> Seq<u8> {
    let l = p.name@.len() as int;
    seq![(l % 256) as u8, (l / 256) as u8] + p.name@ + zeros(1) + encode_records(p.songs@)
}

/// The records at the tail of a playlist file: full blocks parse in turn
/// and the first short block ends the list. A full block that does not
/// parse is corrupt.
pub open spec fn parse_records(bytes: Seq<u8>) -> Option<
    Seq<(Seq<u8>, Seq<u8>, Seq<u8>, Seq<u8>, u8, u8)>,
>
    decreases bytes.len(),
{
    if bytes.len() < SONG_LEN {
        Some(Seq::empty())
    } else {
        match parse_record(bytes.take(SONG_LEN as int)) {
            None => None,
            Some(m) => match parse_records(bytes.skip(SONG_LEN as int)) {
                None => None,
                Some(rest) => Some(seq![m] + rest),
            },
        }
    }
}

/// What a playlist file holds: its name and its records, or nothing when
/// the header is short, the reserved byte is not zero, or a record is
/// corrupt.
pub open spec fn parse_playlist(bytes: Seq<u8>) -> Option<
    (Seq<u8>, Seq<(Seq<u8>, Seq<u8>, Seq<u8>, Seq<u8>, u8, u8)>),
> {
    if bytes.len() < 2 {
        None
    } else {
        let l = bytes[0] + 256 * bytes[1];
        if bytes.len() < 2 + l + 1 {
            None
        } else if bytes[2 + l] != 0 {
            None
        } else {
            match parse_records(bytes.skip(3 + l)) {
                None => None,
                Some(songs) => Some((bytes.subrange(2, 2 + l), songs)),
            }
        }
    }
}

impl RawPlaylist {
    /// Write the playlist into its file bytes.
    pub fn serialize(&self) -> (out: Vec<u8>)
        requires
            self.wf(),
            3 + self.name@.len() + self.songs@.len() * SONG_LEN <= usize::MAX,
        ensures
            out@ == encode_playlist(*self),
    {
        let l = self.name.len();
        let mut out: Vec<u8> = Vec::new();
        out.push((l % 256) as u8);
        out.push((l / 256) as u8);
        crate::record::push_all(&mut out, &self.name);
        out.push(0);
        let ghost header = seq![
            (self.name@.len() as int % 256) as u8,
            (self.name@.len() as int / 256) as u8,
        ] + self.name@ + zeros(1);
        assert(out@ =~= header);
        let n = self.songs.len();
        let mut i: usize = 0;
        while i < n
            invariant
                n == self.songs@.len(),
                i <= n,
                self.wf(),
                header.len() == 3 + self.name@.len(),
                3 + self.name@.len() + n * SONG_LEN <= usize::MAX,
                out@ =~= header + encode_records(self.songs@.subrange(0, i as int)),
                out@.len() == header.len() + i * SONG_LEN,
            decreases n - i,
        {
            let bytes = self.songs[i].into_bytes();
            proof {
                lemma_encode_records_push(self.songs@.subrange(0, i as int), self.songs@[i as int]);
                assert(self.songs@.subrange(0, i as int).push(self.songs@[i as int])
                    =~= self.songs@.subrange(0, i + 1));
                assert((i + 1) * SONG_LEN == i * SONG_LEN + SONG_LEN) by (nonlinear_arith);
                assert(i * SONG_LEN <= n * SONG_LEN) by (nonlinear_arith)
                    requires 0 <= i <= n;
            }
            crate::record::push_all(&mut out, &bytes);
            i = i + 1;
            proof {
                assert((i as int) * SONG_LEN <= n * SONG_LEN) by (nonlinear_arith)
                    requires 0 <= i <= n;
            }
        }
        assert(self.songs@.subrange(0, n as int) =~= self.songs@);
        out
    }

    /// Read a playlist back from its file bytes.
    pub fn deserialize(bytes: &Vec<u8>) -> (r: Result<RawPlaylist, Error>)
        ensures
            match r {
                Ok(p) => parse_playlist(bytes@) == Some(p.key()),
                Err(e) => e == Error::CorruptData && parse_playlist(bytes@) is None,
            },
    {
        let n = bytes.len();
        if n < 2 {
            return Err(Error::CorruptData);
        }
        let l: usize = bytes[0] as usize + 256 * (bytes[1] as usize);
        if n < 2 + l + 1 {
            return Err(Error::CorruptData);
        }
        if bytes[2 + l] != 0 {
            return Err(Error::CorruptData);
        }
        let name = copy_range_pl(bytes, 2, 2 + l);
        let mut songs: Vec<RawSong> = Vec::new();
        let mut i: usize = 3 + l;
        let ghost tail0 = bytes@.skip(3 + l as int);
        let ghost f = |s: RawSong| s.key();
        while n - i >= SONG_LEN
            invariant
                n == bytes@.len(),
                2 <= n,
                l == bytes@[0] + 256 * bytes@[1],
                3 + l <= i <= n,
                bytes@[2 + l as int] == 0,
                tail0 == bytes@.skip(3 + l as int),
                f == (|s: RawSong| s.key()),
                // the records already read, then whatever the rest parses to
                parse_records(tail0) == match parse_records(bytes@.skip(i as int)) {
                    Some(rest) => Some(songs@.map_values(f) + rest),
                    None => None::<Seq<(Seq<u8>, Seq<u8>, Seq<u8>, Seq<u8>, u8, u8)>>,
                },
            decreases n - i,
        {
            let ghost rem = bytes@.skip(i as int);
            proof {
                assert(rem.len() >= SONG_LEN);
                assert(rem.take(SONG_LEN as int) =~= bytes@.subrange(i as int, i + SONG_LEN));
                assert(rem.skip(SONG_LEN as int) =~= bytes@.skip(i + SONG_LEN));
            }
            match decode_record(bytes, i) {
                Ok(song) => {
                    let ghost skey = song.key();
                    let ghost mapped_old = songs@.map_values(f);
                    songs.push(song);
                    proof {
                        assert(parse_record(rem.take(SONG_LEN as int)) == Some(skey));
                        assert(songs@.map_values(f) =~= mapped_old.push(skey));
                        match parse_records(rem.skip(SONG_LEN as int)) {
                            Some(rest2) => {
                                assert(parse_records(rem) == Some(seq![skey] + rest2));
                                assert(mapped_old + (seq![skey] + rest2) =~= songs@.map_values(f)
                                    + rest2);
                            },
                            None => {
                                assert(parse_records(rem) is None);
                            },
                        }
                    }
                },
                Err(_) => {
                    proof {
                        assert(parse_record(rem.take(SONG_LEN as int)) is None);
                        assert(parse_records(rem) is None);
                    }
                    return Err(Error::CorruptData);
                },
            }
            i = i + SONG_LEN;
        }
        proof {
            assert(bytes@.skip(i as int).len() < SONG_LEN);
            assert(parse_records(bytes@.skip(i as int)) == Some(
                Seq::<(Seq<u8>, Seq<u8>, Seq<u8>, Seq<u8>, u8, u8)>::empty(),
            ));
            assert(songs@.map_values(f) + Seq::<(Seq<u8>, Seq<u8>, Seq<u8>, Seq<u8>, u8, u8)>::empty()
                =~= songs@.map_values(f));
            assert(name@ =~= bytes@.subrange(2, 2 + l as int));
        }
        Ok(RawPlaylist { name, songs })
    }
}

/// Appending one record to the stream appends its bytes.
proof fn lemma_encode_records_push(songs: Seq<RawSong>, s: RawSong)
    ensures
        encode_records(songs.push(s)) == encode_records(songs) + encode_record(s),
    decreases songs.len(),
{
    let p = songs.push(s);
    if songs.len() == 0 {
        assert(p.first() == s);
        assert(p.drop_first() =~= Seq::<RawSong>::empty());
        assert(encode_records(Seq::<RawSong>::empty()) =~= Seq::<u8>::empty());
        assert(encode_records(p) =~= encode_record(s));
        assert(encode_records(songs) + encode_record(s) =~= encode_record(s));
    } else {
        assert(p.first() == songs.first());
        assert(p.drop_first() =~= songs.drop_first().push(s));
        lemma_encode_records_push(songs.drop_first(), s);
        assert(encode_records(p) =~= encode_records(songs) + encode_record(s));
    }
}

/// Copy `bytes[from..to]` out as an owned text.
fn copy_range_pl(bytes: &Vec<u8>, from: usize, to: usize) -> (out: Vec<u8>)
    requires
        from <= to <= bytes@.len(),
    ensures
        out@ == bytes@.subrange(from as int, to as int),
{
    let mut out: Vec<u8> = Vec::new();
    let mut i: usize = from;
    while i < to
        invariant
            from <= i <= to <= bytes@.len(),
            out@ =~= bytes@.subrange(from as int, i as int),
        decreases to - i,
    {
        out.push(bytes[i]);
        i = i + 1;
        assert(out@ =~= bytes@.subrange(from as int, i as int));
    }
    out
}

/// Reading a written playlist file yields the playlist that was written:
/// the name and the records come back unchanged, field for field.
pub proof fn lemma_playlist_round_trip(p: RawPlaylist)
    requires
        p.wf(),
    ensures
        parse_playlist(encode_playlist(p)) == Some(p.key()),
{
    let bytes = encode_playlist(p);
    let l = p.name@.len() as int;
    lemma_records_round_trip(p.songs@);
    assert(bytes[0] == (l % 256) as u8);
    assert(bytes[1] == (l / 256) as u8);
    assert(bytes[0] + 256 * bytes[1] == l) by (nonlinear_arith)
        requires
            0 <= l <= u16::MAX,
            bytes.len() >= 2,
            bytes[0] == (l % 256) as u8,
            bytes[1] == (l / 256) as u8,
    ;
    assert(bytes[2 + l] == 0);
    assert(bytes.subrange(2, 2 + l) =~= p.name@);
    assert(bytes.skip(3 + l) =~= encode_records(p.songs@));
}

/// Every full record in a packed stream parses back, in order.
proof fn lemma_records_round_trip(songs: Seq<RawSong>)
    requires
        forall|i: int| 0 <= i < songs.len() ==> (#[trigger] songs[i]).wf(),
    ensures
        parse_records(encode_records(songs)) == Some(
            songs.map_values(|s: RawSong| s.key()),
        ),
    decreases songs.len(),
{
    let stream = encode_records(songs);
    if songs.len() == 0 {
        assert(stream.len() == 0);
        assert(songs.map_values(|s: RawSong| s.key()) =~= Seq::<(Seq<u8>, Seq<u8>, Seq<u8>, Seq<u8>, u8, u8)>::empty());
    } else {
        let s0 = songs.first();
        let rest = songs.drop_first();
        assert(forall|i: int| 0 <= i < rest.len() ==> (#[trigger] rest[i]).wf()) by {
            assert(forall|i: int| 0 <= i < rest.len() ==> rest[i] == songs[i + 1]);
        }
        lemma_records_round_trip(rest);
        crate::record::lemma_record_round_trip(s0);
        assert(encode_record(s0).len() == SONG_LEN);
        lemma_encode_records_len(rest);
        assert(stream.len() == SONG_LEN + rest.len() * SONG_LEN);
        assert(rest.len() * SONG_LEN >= 0) by (nonlinear_arith);
        assert(stream.take(SONG_LEN as int) =~= encode_record(s0));
        assert(stream.skip(SONG_LEN as int) =~= encode_records(rest));
        assert(seq![s0.key()] + rest.map_values(|s: RawSong| s.key()) =~= songs.map_values(
            |s: RawSong| s.key(),
        ));
    }
}

/// Length of a packed record stream of well-formed records.
proof fn lemma_encode_records_len(songs: Seq<RawSong>)
    requires
        forall|i: int| 0 <= i < songs.len() ==> (#[trigger] songs[i]).wf(),
    ensures
        encode_records(songs).len() == songs.len() * SONG_LEN,
    decreases songs.len(),
{
    if songs.len() == 0 {
    } else {
        let rest = songs.drop_first();
        assert(forall|i: int| 0 <= i < rest.len() ==> (#[trigger] rest[i]).wf()) by {
            assert(forall|i: int| 0 <= i < rest.len() ==> rest[i] == songs[i + 1]);
        }
        lemma_encode_records_len(rest);
        assert(encode_record(songs.first()).len() == SONG_LEN);
        assert((songs.len() - 1) * SONG_LEN + SONG_LEN == songs.len() * SONG_LEN)
            by (nonlinear_arith);
    }
}

/// Remove song `si` from playlist `li`; a playlist emptied this way leaves
/// the set. Reports whether the playlist itself was deleted.
pub fn delete_song_at(lists: &mut Index<RawPlaylist>, li: usize, si: usize) -> (deleted: bool)
    requires
        old(lists).wf(),
        li < old(lists).data@.len(),
        si < old(lists).data@[li as int].songs@.len(),
    ensures
        final(lists).wf(),
        deleted == (old(lists).data@[li as int].songs@.len() == 1),
        deleted ==> final(lists).data@ == old(lists).data@.remove(li as int),
        !deleted ==> {
            &&& final(lists).data@.len() == old(lists).data@.len()
            &&& final(lists).data@[li as int].name@ == old(lists).data@[li as int].name@
            &&& final(lists).data@[li as int].songs@ == old(lists).data@[li as int].songs@.remove(
                si as int,
            )
            &&& forall|k: int|
                0 <= k < final(lists).data@.len() && k != li ==> final(lists).data@[k] == old(
                    lists,
                ).data@[k]
        },
{
    let pl = &mut lists.data[li];
    let _ = pl.songs.remove(si);
    if lists.data[li].songs.len() == 0 {
        let _ = lists.remove(li);
        true
    } else {
        false
    }
}

} // verus!
