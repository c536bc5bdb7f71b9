use vstd::prelude::*;

use vstd::multiset::Multiset;

use crate::song::{clone_bytes, clone_song, Song, SongKey};
use crate::text;

verus! {

broadcast use vstd::seq_lib::group_to_multiset_ensures, vstd::multiset::group_multiset_axioms;

/// Where the store stands: at rest, scanning in a worker, or holding
/// changes its readers have not yet taken in.
#[derive(Debug, PartialEq, Eq, Structural, Clone, Copy)]
pub enum LibState {
    Idle,
    Busy,
    NeedsUpdate,
}

/// The song index: every known song keyed by its unique path, the scan
/// roots the songs came from, and the update state its readers watch.
pub struct Library {
    pub songs: Vec<Song>,
    pub roots: Vec<Vec<u8>>,
    pub state: LibState,
}

/// The views of a list of texts.
pub open spec fn views(l: Seq<Vec<u8>>) -> Seq<Seq<u8>> {
    l.map_values(|v: Vec<u8>| v@)
}

/// Some song in the list lies at path `p`.
pub open spec fn has_path(songs: Seq<Song>, p: Seq<u8>) -> bool {
    exists|i: int| 0 <= i < songs.len() && (#[trigger] songs[i]).path@ == p
}

/// Some text in the list reads `x`.
pub open spec fn has_text(l: Seq<Vec<u8>>, x: Seq<u8>) -> bool {
    exists|i: int| 0 <= i < l.len() && (#[trigger] l[i])@ == x
}

/// No two songs share a path.
pub open spec fn unique_paths(songs: Seq<Song>) -> bool {
    forall|i: int, j: int|
        0 <= i < j < songs.len() ==> (#[trigger] songs[i]).path@ != (#[trigger] songs[j]).path@
}

/// The scanned songs folded into the store front to back: a song whose
/// path the store already holds is ignored.
pub open spec fn insert_new(songs: Seq<Song>, batch: Seq<Song>) -> Seq<Song>
    decreases batch.len(),
{
    if batch.len() == 0 {
        songs
    } else {
        let grown = if has_path(songs, batch.first().path@) {
            songs
        } else {
            songs.push(batch.first())
        };
        insert_new(grown, batch.drop_first())
    }
}

/// The keys of a list of songs.
pub open spec fn keys(songs: Seq<Song>) -> Seq<SongKey> {
    songs.map_values(|s: Song| s.key())
}

/// Library ordering of songs: case-insensitively by album, then by disc,
/// then by track.
pub open spec fn le_song(a: Song, b: Song) -> bool {
    if text::ci_le(a.album@, b.album@) && text::ci_le(b.album@, a.album@) {
        if a.disc_number != b.disc_number {
            a.disc_number < b.disc_number
        } else {
            a.track_number <= b.track_number
        }
    } else {
        text::ci_le(a.album@, b.album@)
    }
}

pub open spec fn sorted_songs(s: Seq<Song>) -> bool {
    forall|i: int, j: int| 0 <= i < j < s.len() ==> le_song(#[trigger] s[i], #[trigger] s[j])
}

pub open spec fn sorted_texts(l: Seq<Vec<u8>>) -> bool {
    forall|i: int, j: int|
        0 <= i < j < l.len() ==> text::ci_le((#[trigger] l[i])@, (#[trigger] l[j])@)
}

/// Any two songs are comparable.
proof fn lemma_le_song_total(a: Song, b: Song)
    ensures
        le_song(a, b) || le_song(b, a),
{
    text::lemma_lex_le_total(text::lower_seq(a.album@), text::lower_seq(b.album@));
}

/// The song order chains.
proof fn lemma_le_song_trans(a: Song, b: Song, c: Song)
    requires
        le_song(a, b),
        le_song(b, c),
    ensures
        le_song(a, c),
{
    let aa = a.album@;
    let bb = b.album@;
    let cc = c.album@;
    text::lemma_lex_le_total(text::lower_seq(aa), text::lower_seq(bb));
    text::lemma_lex_le_total(text::lower_seq(bb), text::lower_seq(cc));
    text::lemma_lex_le_total(text::lower_seq(aa), text::lower_seq(cc));
    if text::ci_le(aa, bb) && text::ci_le(bb, aa) {
        text::lemma_ci_tie(aa, bb);
    } else if text::ci_le(bb, cc) && text::ci_le(cc, bb) {
        text::lemma_ci_tie(bb, cc);
    } else {
        // both strict: compose and rule out a tie of the ends
        text::lemma_lex_le_trans(
            text::lower_seq(aa),
            text::lower_seq(bb),
            text::lower_seq(cc),
        );
        if text::ci_le(cc, aa) {
            text::lemma_lex_le_trans(
                text::lower_seq(cc),
                text::lower_seq(aa),
                text::lower_seq(bb),
            );
            text::lemma_lex_le_antisym(text::lower_seq(bb), text::lower_seq(cc));
        }
    }
}

/// Exec comparison matching `le_song`.
fn le_song_exec(a: &Song, b: &Song) -> (r: bool)
    ensures
        r == le_song(*a, *b),
{
    let ab = text::ci_le_bytes(&a.album, &b.album);
    let ba = text::ci_le_bytes(&b.album, &a.album);
    if ab && ba {
        if a.disc_number != b.disc_number {
            a.disc_number < b.disc_number
        } else {
            a.track_number <= b.track_number
        }
    } else {
        ab
    }
}

/// Inserting an element anywhere adds exactly it to the multiset.
proof fn lemma_insert_multiset<A>(s: Seq<A>, p: int, x: A)
    requires
        0 <= p <= s.len(),
    ensures
        s.insert(p, x).to_multiset() == s.to_multiset().insert(x),
{
    let l = s.take(p);
    let r = s.skip(p);
    assert(s.insert(p, x) =~= l + (seq![x] + r));
    assert(s =~= l + r);
    vstd::seq_lib::lemma_multiset_commutative(l, seq![x] + r);
    vstd::seq_lib::lemma_multiset_commutative(seq![x], r);
    vstd::seq_lib::lemma_multiset_commutative(l, r);
    assert(seq![x] =~= Seq::<A>::empty().push(x));
    assert(Seq::<A>::empty().push(x).to_multiset() =~= Seq::<A>::empty().to_multiset().insert(x));
    assert(Seq::<A>::empty().to_multiset() =~= Multiset::<A>::empty());
    assert(s.insert(p, x).to_multiset() =~= s.to_multiset().insert(x));
}

/// Sort songs into the library order. The result holds exactly the same
/// records, rearranged.
pub fn sort_songs(v: Vec<Song>) -> (out: Vec<Song>)
    ensures
        sorted_songs(out@),
        keys(out@).to_multiset() == keys(v@).to_multiset(),
        out@.len() == v@.len(),
{
    let mut rest = v;
    let mut out: Vec<Song> = Vec::new();
    proof {
        assert(keys(out@) =~= Seq::<SongKey>::empty());
        assert(keys(out@).to_multiset() =~= Multiset::<SongKey>::empty());
        assert(keys(out@).to_multiset().add(keys(rest@).to_multiset()) =~= keys(
            rest@,
        ).to_multiset());
    }
    while rest.len() > 0
        invariant
            sorted_songs(out@),
            keys(out@).to_multiset().add(keys(rest@).to_multiset()) == keys(v@).to_multiset(),
            out@.len() + rest@.len() == v@.len(),
        decreases rest@.len(),
    {
        let ghost rest0 = rest@;
        let x = rest.remove(0);
        proof {
            assert(keys(rest@) =~= keys(rest0).remove(0));
            assert(keys(rest0).remove(0).to_multiset() =~= keys(rest0).to_multiset().remove(
                keys(rest0)[0],
            ));
            assert(keys(rest0)[0] == x.key());
        }
        let mut p: usize = 0;
        while p < out.len() && le_song_exec(&out[p], &x)
            invariant
                p <= out@.len(),
                sorted_songs(out@),
                forall|q: int| 0 <= q < p ==> le_song(#[trigger] out@[q], x),
            decreases out@.len() - p,
        {
            p = p + 1;
        }
        proof {
            if p < out@.len() {
                lemma_le_song_total(out@[p as int], x);
                assert(le_song(x, out@[p as int]));
                assert forall|q: int| p <= q < out@.len() implies le_song(
                    x,
                    #[trigger] out@[q],
                ) by {
                    if q > p {
                        lemma_le_song_trans(x, out@[p as int], out@[q]);
                    }
                }
            }
        }
        let ghost out0 = out@;
        out.insert(p, x);
        proof {
            assert(out@ =~= out0.insert(p as int, x));
            assert(keys(out@) =~= keys(out0).insert(p as int, x.key()));
            lemma_insert_multiset(keys(out0), p as int, x.key());
            assert(sorted_songs(out@)) by {
                assert forall|i: int, j: int| 0 <= i < j < out@.len() implies le_song(
                    #[trigger] out@[i],
                    #[trigger] out@[j],
                ) by {
                    if j < p {
                    } else if i < p && j == p {
                        assert(le_song(out0[i], x));
                    } else if i < p && j > p {
                        assert(le_song(out0[i], out0[j - 1]));
                    } else if i == p {
                        assert(le_song(x, out0[j - 1]));
                    } else {
                        assert(le_song(out0[i - 1], out0[j - 1]));
                    }
                }
            }
            assert(keys(out@).to_multiset().add(keys(rest@).to_multiset()) =~= keys(
                v@,
            ).to_multiset());
        }
    }
    proof {
        assert(keys(rest@) =~= Seq::<SongKey>::empty());
        assert(keys(rest@).to_multiset() =~= Multiset::<SongKey>::empty());
        assert(keys(out@).to_multiset() =~= keys(v@).to_multiset());
    }
    out
}

/// Sort texts case-insensitively.
pub fn sort_texts(v: Vec<Vec<u8>>) -> (out: Vec<Vec<u8>>)
    ensures
        sorted_texts(out@),
        views(out@).to_multiset() == views(v@).to_multiset(),
        out@.len() == v@.len(),
{
    let mut rest = v;
    let mut out: Vec<Vec<u8>> = Vec::new();
    proof {
        assert(views(out@) =~= Seq::<Seq<u8>>::empty());
        assert(views(out@).to_multiset() =~= Multiset::<Seq<u8>>::empty());
        assert(views(out@).to_multiset().add(views(rest@).to_multiset()) =~= views(
            rest@,
        ).to_multiset());
    }
    while rest.len() > 0
        invariant
            sorted_texts(out@),
            views(out@).to_multiset().add(views(rest@).to_multiset()) == views(v@).to_multiset(),
            out@.len() + rest@.len() == v@.len(),
        decreases rest@.len(),
    {
        let ghost rest0 = rest@;
        let x = rest.remove(0);
        proof {
            assert(views(rest@) =~= views(rest0).remove(0));
            assert(views(rest0).remove(0).to_multiset() =~= views(rest0).to_multiset().remove(
                views(rest0)[0],
            ));
            assert(views(rest0)[0] == x@);
        }
        let mut p: usize = 0;
        while p < out.len() && text::ci_le_bytes(&out[p], &x)
            invariant
                p <= out@.len(),
                sorted_texts(out@),
                forall|q: int| 0 <= q < p ==> text::ci_le((#[trigger] out@[q])@, x@),
            decreases out@.len() - p,
        {
            p = p + 1;
        }
        proof {
            if p < out@.len() {
                text::lemma_lex_le_total(
                    text::lower_seq(out@[p as int]@),
                    text::lower_seq(x@),
                );
                assert forall|q: int| p <= q < out@.len() implies text::ci_le(
                    x@,
                    (#[trigger] out@[q])@,
                ) by {
                    if q > p {
                        text::lemma_lex_le_trans(
                            text::lower_seq(x@),
                            text::lower_seq(out@[p as int]@),
                            text::lower_seq(out@[q]@),
                        );
                    }
                }
            }
        }
        let ghost out0 = out@;
        out.insert(p, x);
        proof {
            assert(out@ =~= out0.insert(p as int, out@[p as int]));
            assert(views(out@) =~= views(out0).insert(p as int, out@[p as int]@));
            lemma_insert_multiset(views(out0), p as int, out@[p as int]@);
            assert(sorted_texts(out@)) by {
                assert forall|i: int, j: int| 0 <= i < j < out@.len() implies text::ci_le(
                    (#[trigger] out@[i])@,
                    (#[trigger] out@[j])@,
                ) by {
                    if j < p {
                    } else if i < p && j == p {
                    } else if i < p && j > p {
                        assert(text::ci_le(out0[i]@, out0[j - 1]@));
                    } else if i == p {
                        assert(text::ci_le(out@[p as int]@, out0[j - 1]@));
                    } else {
                        assert(text::ci_le(out0[i - 1]@, out0[j - 1]@));
                    }
                }
            }
            assert(views(out@).to_multiset().add(views(rest@).to_multiset()) =~= views(
                v@,
            ).to_multiset());
        }
    }
    proof {
        assert(views(rest@) =~= Seq::<Seq<u8>>::empty());
        assert(views(rest@).to_multiset() =~= Multiset::<Seq<u8>>::empty());
        assert(views(out@).to_multiset() =~= views(v@).to_multiset());
    }
    out
}

/// The songs a root removal keeps: those whose path does not lie under
/// the root.
pub open spec fn keeps(root: Seq<u8>) -> spec_fn(Song) -> bool {
    |s: Song| !text::is_prefix(root, s.path@)
}

/// The list with the first occurrence of `x` taken out (unchanged when
/// absent).
pub open spec fn remove_first(l: Seq<Vec<u8>>, x: Seq<u8>) -> Seq<Vec<u8>>
    decreases l.len(),
{
    if l.len() == 0 {
        l
    } else if l.first()@ == x {
        l.drop_first()
    } else {
        seq![l.first()] + remove_first(l.drop_first(), x)
    }
}

/// Appending a fresh element and then removing its first occurrence gives
/// the original list back.
pub proof fn lemma_remove_first_push(l: Seq<Vec<u8>>, x: Vec<u8>)
    requires
        !has_text(l, x@),
    ensures
        remove_first(l.push(x), x@) == l,
    decreases l.len(),
{
    let p = l.push(x);
    if l.len() == 0 {
        assert(p.first() == x);
        assert(p.drop_first() =~= Seq::<Vec<u8>>::empty());
        assert(remove_first(p, x@) =~= l);
    } else {
        assert(p.first() == l.first());
        assert(l.first()@ != x@) by {
            assert(l[0]@ == l.first()@);
        }
        assert(p.drop_first() =~= l.drop_first().push(x));
        assert(!has_text(l.drop_first(), x@)) by {
            if has_text(l.drop_first(), x@) {
                let w = choose|i: int|
                    0 <= i < l.drop_first().len() && l.drop_first()[i]@ == x@;
                assert(l[w + 1]@ == x@);
            }
        }
        lemma_remove_first_push(l.drop_first(), x);
        assert(remove_first(p, x@) =~= l);
    }
}

/// Some song in a grown list lies at `p` exactly when the old list had it
/// or the new song carries it.
proof fn lemma_has_path_push(s: Seq<Song>, x: Song, p: Seq<u8>)
    ensures
        has_path(s.push(x), p) == (has_path(s, p) || x.path@ == p),
{
    if has_path(s, p) {
        let w = choose|i: int| 0 <= i < s.len() && s[i].path@ == p;
        assert(s.push(x)[w].path@ == p);
    }
    if x.path@ == p {
        assert(s.push(x)[s.len() as int].path@ == p);
    }
    if has_path(s.push(x), p) {
        let w = choose|i: int| 0 <= i < s.push(x).len() && s.push(x)[i].path@ == p;
        if w < s.len() {
            assert(s[w].path@ == p);
        }
    }
}

/// Folding a scan in reaches every scanned path and invents none: the
/// result holds a path exactly when the store already held it or the scan
/// delivered it.
pub proof fn lemma_insert_new_complete(songs: Seq<Song>, batch: Seq<Song>, p: Seq<u8>)
    ensures
        has_path(insert_new(songs, batch), p) == (has_path(songs, p) || exists|k: int|
            0 <= k < batch.len() && (#[trigger] batch[k]).path@ == p),
    decreases batch.len(),
{
    if batch.len() > 0 {
        let grown = if has_path(songs, batch.first().path@) {
            songs
        } else {
            songs.push(batch.first())
        };
        lemma_has_path_push(songs, batch.first(), p);
        lemma_insert_new_complete(grown, batch.drop_first(), p);
        assert(has_path(grown, p) == (has_path(songs, p) || batch.first().path@ == p));
        if exists|k: int| 0 <= k < batch.len() && (#[trigger] batch[k]).path@ == p {
            let w = choose|k: int| 0 <= k < batch.len() && (#[trigger] batch[k]).path@ == p;
            if w == 0 {
            } else {
                assert(batch.drop_first()[w - 1].path@ == p);
            }
        }
        if exists|k: int|
            0 <= k < batch.drop_first().len() && (#[trigger] batch.drop_first()[k]).path@ == p {
            let w = choose|k: int|
                0 <= k < batch.drop_first().len() && (#[trigger] batch.drop_first()[k]).path@
                    == p;
            assert(batch[w + 1].path@ == p);
        }
    }
}

/// Folding a scan in keeps paths unique.
proof fn lemma_insert_new_unique(songs: Seq<Song>, batch: Seq<Song>)
    requires
        unique_paths(songs),
    ensures
        unique_paths(insert_new(songs, batch)),
    decreases batch.len(),
{
    if batch.len() > 0 {
        let x = batch.first();
        if has_path(songs, x.path@) {
            lemma_insert_new_unique(songs, batch.drop_first());
        } else {
            assert(unique_paths(songs.push(x))) by {
                assert forall|i: int, j: int|
                    0 <= i < j < songs.push(x).len() implies (#[trigger] songs.push(
                        x,
                    )[i]).path@ != (#[trigger] songs.push(x)[j]).path@ by {
                    if j == songs.len() {
                        assert(songs[i].path@ != x.path@) by {
                            if songs[i].path@ == x.path@ {
                                assert(has_path(songs, x.path@));
                            }
                        }
                    }
                }
            }
            lemma_insert_new_unique(songs.push(x), batch.drop_first());
        }
    }
}

/// Keeping only what a predicate admits never duplicates a path.
proof fn lemma_filter_unique(songs: Seq<Song>, pred: spec_fn(Song) -> bool)
    requires
        unique_paths(songs),
    ensures
        unique_paths(songs.filter(pred)),
        forall|q: int| 0 <= q < songs.filter(pred).len() ==> songs.contains(
            #[trigger] songs.filter(pred)[q],
        ),
    decreases songs.len(),
{
    reveal(Seq::filter);
    if songs.len() > 0 {
        let rest = songs.drop_last();
        assert(unique_paths(rest)) by {
            assert(forall|i: int| 0 <= i < rest.len() ==> rest[i] == songs[i]);
        }
        lemma_filter_unique(rest, pred);
        let f = songs.filter(pred);
        assert forall|q: int| 0 <= q < f.len() implies songs.contains(#[trigger] f[q]) by {
            if pred(songs.last()) && q == f.len() - 1 {
                assert(f[q] == songs.last());
                assert(songs[songs.len() - 1] == songs.last());
            } else {
                assert(rest.contains(rest.filter(pred)[q]));
                let w = choose|k: int| 0 <= k < rest.len() && rest[k] == rest.filter(pred)[q];
                assert(songs[w] == f[q]);
            }
        }
        assert(unique_paths(f)) by {
            assert forall|i: int, j: int| 0 <= i < j < f.len() implies (#[trigger] f[i]).path@
                != (#[trigger] f[j]).path@ by {
                if pred(songs.last()) && j == f.len() - 1 {
                    assert(rest.contains(rest.filter(pred)[i]));
                    let w = choose|k: int| 0 <= k < rest.len() && rest[k] == f[i];
                    assert(songs[w].path@ != songs[songs.len() - 1].path@);
                } else {
                    assert(rest.filter(pred)[i] == f[i]);
                    assert(rest.filter(pred)[j] == f[j]);
                }
            }
        }
    }
}

impl Library {
    /// Paths stay unique: each song is in the store once.
    pub open spec fn wf(self) -> bool {
        unique_paths(self.songs@)
    }

    pub fn new() -> (lib: Library)
        ensures
            lib.wf(),
            lib.songs@.len() == 0,
            lib.roots@.len() == 0,
            lib.state == LibState::Idle,
    {
        Library { songs: Vec::new(), roots: Vec::new(), state: LibState::Idle }
    }

    pub fn is_busy(&self) -> (r: bool)
        ensures
            r == (self.state == LibState::Busy),
    {
        self.state == LibState::Busy
    }

    pub fn needs_update(&self) -> (r: bool)
        ensures
            r == (self.state == LibState::NeedsUpdate),
    {
        self.state == LibState::NeedsUpdate
    }

    /// Readers took the changes in: back to rest.
    pub fn ack_update(&mut self)
        requires
            old(self).wf(),
        ensures
            final(self).wf(),
            final(self).songs == old(self).songs,
            final(self).roots == old(self).roots,
            final(self).state == (if old(self).state == LibState::NeedsUpdate {
                LibState::Idle
            } else {
                old(self).state
            }),
    {
        if self.state == LibState::NeedsUpdate {
            self.state = LibState::Idle;
        }
    }

    /// Whether some stored song lies at `path`.
    pub fn has_song_at(&self, path: &Vec<u8>) -> (r: bool)
        ensures
            r == has_path(self.songs@, path@),
    {
        let n = self.songs.len();
        let mut i: usize = 0;
        while i < n
            invariant
                n == self.songs@.len(),
                i <= n,
                forall|k: int| 0 <= k < i ==> (#[trigger] self.songs@[k]).path@ != path@,
            decreases n - i,
        {
            if text::bytes_eq(&self.songs[i].path, path) {
                return true;
            }
            i = i + 1;
        }
        false
    }

    /// Whether `root` is one of the scan roots.
    pub fn has_root(&self, root: &Vec<u8>) -> (r: bool)
        ensures
            r == has_text(self.roots@, root@),
    {
        let n = self.roots.len();
        let mut i: usize = 0;
        while i < n
            invariant
                n == self.roots@.len(),
                i <= n,
                forall|k: int| 0 <= k < i ==> (#[trigger] self.roots@[k])@ != root@,
            decreases n - i,
        {
            if text::bytes_eq(&self.roots[i], root) {
                return true;
            }
            i = i + 1;
        }
        false
    }

    /// Begin scanning a root: the store turns busy while a worker walks
    /// the directory and reads tags; the caller hands the outcome to
    /// `complete_scan`. Reports whether the root is new to the store.
    pub fn add_root(&mut self, root: &Vec<u8>) -> (fresh: bool)
        requires
            old(self).wf(),
        ensures
            final(self).wf(),
            final(self).songs == old(self).songs,
            final(self).roots == old(self).roots,
            final(self).state == LibState::Busy,
            fresh == !has_text(old(self).roots@, root@),
    {
        self.state = LibState::Busy;
        !self.has_root(root)
    }

    /// The worker finished scanning `root`: fold its songs in, ignoring
    /// any path already stored (so rescanning a root never duplicates),
    /// record the root, and flag the readers.
    pub fn complete_scan(&mut self, root: Vec<u8>, batch: Vec<Song>)
        requires
            old(self).wf(),
            old(self).songs@.len() + batch@.len() <= usize::MAX,
            old(self).roots@.len() < usize::MAX,
        ensures
            final(self).wf(),
            final(self).songs@ == insert_new(old(self).songs@, batch@),
            final(self).roots@ == (if has_text(old(self).roots@, root@) {
                old(self).roots@
            } else {
                old(self).roots@.push(root)
            }),
            final(self).state == LibState::NeedsUpdate,
            // every scanned file is now in the store
            forall|k: int| 0 <= k < batch@.len() ==> has_path(
                final(self).songs@,
                (#[trigger] batch@[k]).path@,
            ),
    {
        let ghost batch0 = batch@;
        let ghost songs0 = self.songs@;
        let mut batch = batch;
        while batch.len() > 0
            invariant
                unique_paths(self.songs@),
                insert_new(songs0, batch0) == insert_new(self.songs@, batch@),
                self.songs@.len() + batch@.len() <= usize::MAX,
                self.roots == old(self).roots,
                self.state == old(self).state,
            decreases batch@.len(),
        {
            let ghost pre = batch@;
            let x = batch.remove(0);
            proof {
                assert(pre.first() == x);
                assert(batch@ =~= pre.drop_first());
            }
            if !self.has_song_at(&x.path) {
                let ghost s_pre = self.songs@;
                proof {
                    assert(unique_paths(s_pre.push(x))) by {
                        assert forall|i: int, j: int|
                            0 <= i < j < s_pre.push(x).len() implies (#[trigger] s_pre.push(
                            x,
                        )[i]).path@ != (#[trigger] s_pre.push(x)[j]).path@ by {
                            if j == s_pre.len() {
                                assert(s_pre[i].path@ != x.path@) by {
                                    if s_pre[i].path@ == x.path@ {
                                        assert(has_path(s_pre, x.path@));
                                    }
                                }
                            }
                        }
                    }
                }
                self.songs.push(x);
            }
        }
        proof {
            assert(batch@.len() == 0);
            assert(insert_new(self.songs@, batch@) == self.songs@);
            assert forall|k: int| 0 <= k < batch0.len() implies has_path(
                self.songs@,
                (#[trigger] batch0[k]).path@,
            ) by {
                lemma_insert_new_complete(songs0, batch0, batch0[k].path@);
            }
        }
        if !self.has_root(&root) {
            self.roots.push(root);
        }
        self.state = LibState::NeedsUpdate;
    }

    /// Drop a scan root: the root leaves the list and every song whose
    /// path lies under it leaves the store.
    pub fn remove_root(&mut self, root: &Vec<u8>)
        requires
            old(self).wf(),
        ensures
            final(self).wf(),
            final(self).songs@ == old(self).songs@.filter(keeps(root@)),
            final(self).roots@ == remove_first(old(self).roots@, root@),
            final(self).state == LibState::NeedsUpdate,
    {
        let ghost pred = keeps(root@);
        let ghost songs0 = self.songs@;
        let mut olds: Vec<Song> = Vec::new();
        core::mem::swap(&mut olds, &mut self.songs);
        let mut kept: Vec<Song> = Vec::new();
        let mut i: usize = 0;
        let n = olds.len();
        proof {
            reveal(Seq::filter);
            assert(kept@ =~= songs0.subrange(0, 0).filter(pred));
            assert(olds@ =~= songs0.subrange(0, n as int));
        }
        while i < n
            invariant
                n == songs0.len(),
                i <= n,
                olds@ == songs0.subrange(i as int, n as int),
                kept@ == songs0.subrange(0, i as int).filter(pred),
                unique_paths(songs0),
                pred == keeps(root@),
                self.roots == old(self).roots,
                self.state == old(self).state,
            decreases n - i,
        {
            let x = olds.remove(0);
            proof {
                assert(x == songs0[i as int]);
                assert(olds@ =~= songs0.subrange(i + 1, n as int));
            }
            let ghost prefix = songs0.subrange(0, i as int);
            proof {
                reveal(Seq::filter);
                assert(songs0.subrange(0, i + 1).drop_last() =~= prefix);
                assert(songs0.subrange(0, i + 1).last() == x);
            }
            if !text::starts_with(&x.path, root) {
                kept.push(x);
            }
            i = i + 1;
        }
        proof {
            assert(songs0.subrange(0, n as int) =~= songs0);
            lemma_filter_unique(songs0, pred);
        }
        self.songs = kept;
        // take the root out of the list
        let rn = self.roots.len();
        let mut j: usize = 0;
        while j < rn
            invariant
                rn == self.roots@.len(),
                j <= rn,
                forall|k: int| 0 <= k < j ==> (#[trigger] self.roots@[k])@ != root@,
                self.roots == old(self).roots,
                self.songs@ == old(self).songs@.filter(keeps(root@)),
                unique_paths(self.songs@),
            decreases rn - j,
        {
            if text::bytes_eq(&self.roots[j], root) {
                let _ = self.roots.remove(j);
                proof {
                    lemma_remove_first_at(old(self).roots@, root@, j as int);
                }
                self.state = LibState::NeedsUpdate;
                return ;
            }
            j = j + 1;
        }
        proof {
            lemma_remove_first_absent(self.roots@, root@);
        }
        self.state = LibState::NeedsUpdate;
    }
}

/// Removing the first occurrence removes exactly the element at the first
/// matching position.
proof fn lemma_remove_first_at(l: Seq<Vec<u8>>, x: Seq<u8>, at: int)
    requires
        0 <= at < l.len(),
        l[at]@ == x,
        forall|k: int| 0 <= k < at ==> (#[trigger] l[k])@ != x,
    ensures
        remove_first(l, x) == l.remove(at),
    decreases l.len(),
{
    if at == 0 {
        assert(l.first()@ == x);
        assert(l.drop_first() =~= l.remove(0));
    } else {
        assert(l.first()@ != x) by {
            assert(l[0]@ != x);
        }
        assert(forall|k: int|
            0 <= k < at - 1 ==> (#[trigger] l.drop_first()[k])@ != x) by {
            assert(forall|k: int| 0 <= k < at - 1 ==> l.drop_first()[k] == l[k + 1]);
        }
        assert(l.drop_first()[at - 1]@ == x);
        lemma_remove_first_at(l.drop_first(), x, at - 1);
        assert(seq![l.first()] + l.drop_first().remove(at - 1) =~= l.remove(at));
    }
}

/// Removing an absent element changes nothing.
proof fn lemma_remove_first_absent(l: Seq<Vec<u8>>, x: Seq<u8>)
    requires
        !has_text(l, x),
    ensures
        remove_first(l, x) == l,
    decreases l.len(),
{
    if l.len() > 0 {
        assert(l.first()@ != x) by {
            assert(l[0]@ == l.first()@);
        }
        assert(!has_text(l.drop_first(), x)) by {
            if has_text(l.drop_first(), x) {
                let w = choose|i: int| 0 <= i < l.drop_first().len() && l.drop_first()[i]@ == x;
                assert(l[w + 1]@ == x);
            }
        }
        lemma_remove_first_absent(l.drop_first(), x);
        assert(seq![l.first()] + l.drop_first() =~= l);
    }
}

/// Membership test for a text among views.
pub open spec fn in_list(l: Seq<Seq<u8>>) -> spec_fn(Vec<u8>) -> bool {
    |v: Vec<u8>| l.contains(v@)
}

pub open spec fn not_in_list(l: Seq<Seq<u8>>) -> spec_fn(Vec<u8>) -> bool {
    |v: Vec<u8>| !l.contains(v@)
}

/// The songs that survive a sync: none of the dropped roots lies over
/// their path.
pub open spec fn survives(stale: Seq<Seq<u8>>) -> spec_fn(Song) -> bool {
    |s: Song| forall|r: Seq<u8>| stale.contains(r) ==> !text::is_prefix(r, s.path@)
}

pub open spec fn by_artist(artist: Seq<u8>) -> spec_fn(Song) -> bool {
    |s: Song| s.artist@ == artist
}

pub open spec fn by_album(album: Seq<u8>, artist: Seq<u8>) -> spec_fn(Song) -> bool {
    |s: Song| s.album@ == album && s.artist@ == artist
}

impl Library {
    /// The song with a given store id (its position), if the id exists.
    pub fn song_by_id(&self, id: usize) -> (r: Option<Song>)
        ensures
            match r {
                Some(s) => id < self.songs@.len() && s.key() == self.songs@[id as int].key(),
                None => id >= self.songs@.len(),
            },
    {
        if id < self.songs.len() {
            Some(clone_song(&self.songs[id]))
        } else {
            None
        }
    }

    /// Every stored song with its id, in store order.
    pub fn list_songs(&self) -> (r: Vec<(usize, Song)>)
        ensures
            r@.len() == self.songs@.len(),
            forall|i: int| 0 <= i < r@.len() ==> (#[trigger] r@[i]).0 == i && r@[i].1.key()
                == self.songs@[i].key(),
    {
        let n = self.songs.len();
        let mut out: Vec<(usize, Song)> = Vec::new();
        let mut i: usize = 0;
        while i < n
            invariant
                n == self.songs@.len(),
                i <= n,
                out@.len() == i,
                forall|k: int| 0 <= k < i ==> (#[trigger] out@[k]).0 == k && out@[k].1.key()
                    == self.songs@[k].key(),
            decreases n - i,
        {
            out.push((i, clone_song(&self.songs[i])));
            i = i + 1;
        }
        out
    }

    /// Every distinct artist, case-insensitively sorted.
    pub fn artists(&self) -> (r: Vec<Vec<u8>>)
        ensures
            sorted_texts(r@),
            views(r@).no_duplicates(),
            forall|x: Seq<u8>| has_text(r@, x) == (exists|i: int|
                0 <= i < self.songs@.len() && (#[trigger] self.songs@[i]).artist@ == x),
    {
        let n = self.songs.len();
        let mut out: Vec<Vec<u8>> = Vec::new();
        let mut i: usize = 0;
        while i < n
            invariant
                n == self.songs@.len(),
                i <= n,
                views(out@).no_duplicates(),
                forall|x: Seq<u8>| has_text(out@, x) == (exists|k: int|
                    0 <= k < i && (#[trigger] self.songs@[k]).artist@ == x),
            decreases n - i,
        {
            let ghost pre = out@;
            if !contains_text(&out, &self.songs[i].artist) {
                out.push(clone_bytes(&self.songs[i].artist));
                proof {
                    lemma_has_text_push(pre, out@[pre.len() as int], self.songs@[i as int].artist@);
                    assert(views(out@) =~= views(pre).push(self.songs@[i as int].artist@));
                }
            } else {
                proof {
                    assert(has_text(out@, self.songs@[i as int].artist@));
                }
            }
            i = i + 1;
            proof {
                assert forall|x: Seq<u8>| has_text(out@, x) == (exists|k: int|
                    0 <= k < i && (#[trigger] self.songs@[k]).artist@ == x) by {
                    if has_text(out@, x) {
                        if has_text(pre, x) {
                            let w = choose|k: int| 0 <= k < i - 1 && self.songs@[k].artist@ == x;
                            assert(self.songs@[w].artist@ == x);
                        } else {
                            assert(self.songs@[i - 1].artist@ == x);
                        }
                    }
                    if exists|k: int| 0 <= k < i && (#[trigger] self.songs@[k]).artist@ == x {
                        let w = choose|k: int|
                            0 <= k < i && (#[trigger] self.songs@[k]).artist@ == x;
                        if w < i - 1 {
                            assert(has_text(pre, x));
                            let v = choose|q: int| 0 <= q < pre.len() && pre[q]@ == x;
                            assert(out@[v]@ == x);
                        }
                    }
                }
            }
        }
        let sorted = sort_texts(out);
        proof {
            lemma_sort_texts_membership(out@, sorted@);
        }
        sorted
    }

    /// Every distinct album of one artist, case-insensitively sorted.
    pub fn albums_for_artist(&self, artist: &Vec<u8>) -> (r: Vec<Vec<u8>>)
        ensures
            sorted_texts(r@),
            views(r@).no_duplicates(),
            forall|x: Seq<u8>| has_text(r@, x) == (exists|i: int|
                0 <= i < self.songs@.len() && (#[trigger] self.songs@[i]).artist@ == artist@
                    && self.songs@[i].album@ == x),
    {
        let n = self.songs.len();
        let mut out: Vec<Vec<u8>> = Vec::new();
        let mut i: usize = 0;
        while i < n
            invariant
                n == self.songs@.len(),
                i <= n,
                views(out@).no_duplicates(),
                forall|x: Seq<u8>| has_text(out@, x) == (exists|k: int|
                    0 <= k < i && (#[trigger] self.songs@[k]).artist@ == artist@
                        && self.songs@[k].album@ == x),
            decreases n - i,
        {
            let ghost pre = out@;
            let matches_artist = text::bytes_eq(&self.songs[i].artist, artist);
            if matches_artist && !contains_text(&out, &self.songs[i].album) {
                out.push(clone_bytes(&self.songs[i].album));
                proof {
                    lemma_has_text_push(pre, out@[pre.len() as int], self.songs@[i as int].album@);
                    assert(views(out@) =~= views(pre).push(self.songs@[i as int].album@));
                }
            }
            i = i + 1;
            proof {
                assert forall|x: Seq<u8>| has_text(out@, x) == (exists|k: int|
                    0 <= k < i && (#[trigger] self.songs@[k]).artist@ == artist@
                        && self.songs@[k].album@ == x) by {
                    if has_text(out@, x) {
                        if has_text(pre, x) {
                            let w = choose|k: int|
                                0 <= k < i - 1 && self.songs@[k].artist@ == artist@
                                    && self.songs@[k].album@ == x;
                            assert(self.songs@[w].artist@ == artist@ && self.songs@[w].album@
                                == x);
                        } else {
                            assert(self.songs@[i - 1].artist@ == artist@ && self.songs@[i
                                - 1].album@ == x);
                        }
                    }
                    if exists|k: int|
                        0 <= k < i && (#[trigger] self.songs@[k]).artist@ == artist@
                            && self.songs@[k].album@ == x {
                        let w = choose|k: int|
                            0 <= k < i && (#[trigger] self.songs@[k]).artist@ == artist@
                                && self.songs@[k].album@ == x;
                        if w < i - 1 || !(self.songs@[i - 1].artist@ == artist@ && self.songs@[i
                            - 1].album@ == x) {
                            assert(has_text(pre, x));
                            let v = choose|q: int| 0 <= q < pre.len() && pre[q]@ == x;
                            assert(out@[v]@ == x);
                        } else {
                            assert(has_text(out@, x));
                        }
                    }
                }
            }
        }
        let sorted = sort_texts(out);
        proof {
            lemma_sort_texts_membership(out@, sorted@);
        }
        sorted
    }

    /// One artist's songs, in library order.
    pub fn songs_for_artist(&self, artist: &Vec<u8>) -> (r: Vec<Song>)
        ensures
            sorted_songs(r@),
            keys(r@).to_multiset() == keys(self.songs@.filter(by_artist(artist@))).to_multiset(),
    {
        let mut picked: Vec<Song> = Vec::new();
        let n = self.songs.len();
        let mut i: usize = 0;
        proof {
            reveal(Seq::filter);
            assert(keys(picked@) =~= keys(self.songs@.subrange(0, 0).filter(by_artist(artist@))));
        }
        while i < n
            invariant
                n == self.songs@.len(),
                i <= n,
                keys(picked@) == keys(self.songs@.subrange(0, i as int).filter(by_artist(artist@))),
            decreases n - i,
        {
            let ghost prefix = self.songs@.subrange(0, i as int);
            proof {
                reveal(Seq::filter);
                assert(self.songs@.subrange(0, i + 1).drop_last() =~= prefix);
            }
            if text::bytes_eq(&self.songs[i].artist, artist) {
                picked.push(clone_song(&self.songs[i]));
                proof {
                    assert(keys(picked@) =~= keys(prefix.filter(by_artist(artist@))).push(
                        self.songs@[i as int].key(),
                    ));
                    assert(keys(self.songs@.subrange(0, i + 1).filter(by_artist(artist@))) =~= keys(
                        prefix.filter(by_artist(artist@)),
                    ).push(self.songs@[i as int].key()));
                }
            } else {
                proof {
                    assert(keys(picked@) =~= keys(
                        self.songs@.subrange(0, i + 1).filter(by_artist(artist@)),
                    ));
                }
            }
            i = i + 1;
        }
        proof {
            assert(self.songs@.subrange(0, n as int) =~= self.songs@);
        }
        sort_songs(picked)
    }

    /// One album's songs, ordered by disc and then track.
    pub fn songs_for_album(&self, album: &Vec<u8>, artist: &Vec<u8>) -> (r: Vec<Song>)
        ensures
            sorted_songs(r@),
            keys(r@).to_multiset() == keys(
                self.songs@.filter(by_album(album@, artist@)),
            ).to_multiset(),
    {
        let mut picked: Vec<Song> = Vec::new();
        let n = self.songs.len();
        let mut i: usize = 0;
        proof {
            reveal(Seq::filter);
            assert(keys(picked@) =~= keys(
                self.songs@.subrange(0, 0).filter(by_album(album@, artist@)),
            ));
        }
        while i < n
            invariant
                n == self.songs@.len(),
                i <= n,
                keys(picked@) == keys(
                    self.songs@.subrange(0, i as int).filter(by_album(album@, artist@)),
                ),
            decreases n - i,
        {
            let ghost prefix = self.songs@.subrange(0, i as int);
            proof {
                reveal(Seq::filter);
                assert(self.songs@.subrange(0, i + 1).drop_last() =~= prefix);
            }
            let hit = text::bytes_eq(&self.songs[i].album, album) && text::bytes_eq(
                &self.songs[i].artist,
                artist,
            );
            if hit {
                picked.push(clone_song(&self.songs[i]));
                proof {
                    assert(keys(picked@) =~= keys(prefix.filter(by_album(album@, artist@))).push(
                        self.songs@[i as int].key(),
                    ));
                    assert(keys(self.songs@.subrange(0, i + 1).filter(by_album(album@, artist@)))
                        =~= keys(prefix.filter(by_album(album@, artist@))).push(
                        self.songs@[i as int].key(),
                    ));
                }
            } else {
                proof {
                    assert(keys(picked@) =~= keys(
                        self.songs@.subrange(0, i + 1).filter(by_album(album@, artist@)),
                    ));
                }
            }
            i = i + 1;
        }
        proof {
            assert(self.songs@.subrange(0, n as int) =~= self.songs@);
        }
        sort_songs(picked)
    }
}

/// Whether a list of texts holds `x`.
pub fn contains_text(l: &Vec<Vec<u8>>, x: &Vec<u8>) -> (r: bool)
    ensures
        r == has_text(l@, x@),
{
    let n = l.len();
    let mut i: usize = 0;
    while i < n
        invariant
            n == l@.len(),
            i <= n,
            forall|k: int| 0 <= k < i ==> (#[trigger] l@[k])@ != x@,
        decreases n - i,
    {
        if text::bytes_eq(&l[i], x) {
            return true;
        }
        i = i + 1;
    }
    false
}

/// Growing a text list by one text adds exactly that text's membership.
proof fn lemma_has_text_push(l: Seq<Vec<u8>>, v: Vec<u8>, x: Seq<u8>)
    requires
        v@ == x,
    ensures
        has_text(l.push(v), x),
        forall|y: Seq<u8>| has_text(l.push(v), y) == (has_text(l, y) || y == x),
{
    assert(l.push(v)[l.len() as int]@ == x);
    assert forall|y: Seq<u8>| has_text(l.push(v), y) == (has_text(l, y) || y == x) by {
        if has_text(l, y) {
            let w = choose|i: int| 0 <= i < l.len() && l[i]@ == y;
            assert(l.push(v)[w]@ == y);
        }
        if has_text(l.push(v), y) {
            let w = choose|i: int| 0 <= i < l.push(v).len() && l.push(v)[i]@ == y;
            if w < l.len() {
                assert(l[w]@ == y);
            }
        }
    }
}

/// Sorting keeps membership and distinctness of texts.
proof fn lemma_sort_texts_membership(a: Seq<Vec<u8>>, b: Seq<Vec<u8>>)
    requires
        views(a).to_multiset() == views(b).to_multiset(),
    ensures
        forall|x: Seq<u8>| has_text(a, x) == has_text(b, x),
        views(a).no_duplicates() ==> views(b).no_duplicates(),
{
    assert forall|x: Seq<u8>| has_text(a, x) == has_text(b, x) by {
        assert(has_text(a, x) == views(a).contains(x)) by {
            if has_text(a, x) {
                let w = choose|i: int| 0 <= i < a.len() && a[i]@ == x;
                assert(views(a)[w] == x);
            }
            if views(a).contains(x) {
                let w = choose|i: int| 0 <= i < views(a).len() && views(a)[i] == x;
                assert(a[w]@ == x);
            }
        }
        assert(has_text(b, x) == views(b).contains(x)) by {
            if has_text(b, x) {
                let w = choose|i: int| 0 <= i < b.len() && b[i]@ == x;
                assert(views(b)[w] == x);
            }
            if views(b).contains(x) {
                let w = choose|i: int| 0 <= i < views(b).len() && views(b)[i] == x;
                assert(b[w]@ == x);
            }
        }
        assert(views(a).to_multiset().count(x) == views(b).to_multiset().count(x));
        assert(views(a).contains(x) == (views(a).to_multiset().count(x) > 0));
        assert(views(b).contains(x) == (views(b).to_multiset().count(x) > 0));
    }
    if views(a).no_duplicates() {
        views(a).lemma_multiset_has_no_duplicates();
        views(b).lemma_multiset_has_no_duplicates_conv();
    }
}

/// Adding a root and then removing it returns the store to its snapshot:
/// when no stored song already lay under the root and the root was not
/// yet declared, folding in a scan of songs under that root and then
/// dropping the root leaves both the song list and the root list exactly
/// as they were.
pub proof fn lemma_add_remove_root_round_trip(
    songs: Seq<Song>,
    roots: Seq<Vec<u8>>,
    root: Vec<u8>,
    batch: Seq<Song>,
)
    requires
        unique_paths(songs),
        !has_text(roots, root@),
        forall|k: int| 0 <= k < batch.len() ==> text::is_prefix(
            root@,
            (#[trigger] batch[k]).path@,
        ),
        forall|i: int| 0 <= i < songs.len() ==> !text::is_prefix(
            root@,
            (#[trigger] songs[i]).path@,
        ),
    ensures
        insert_new(songs, batch).filter(keeps(root@)) == songs,
        remove_first(roots.push(root), root@) == roots,
{
    lemma_remove_first_push(roots, root);
    lemma_insert_new_filtered(songs, batch, root@);
    lemma_filter_all(songs, keeps(root@));
}

/// Folding in songs that a filter drops leaves the filtered view alone.
proof fn lemma_insert_new_filtered(songs: Seq<Song>, batch: Seq<Song>, root: Seq<u8>)
    requires
        forall|k: int| 0 <= k < batch.len() ==> text::is_prefix(
            root,
            (#[trigger] batch[k]).path@,
        ),
    ensures
        insert_new(songs, batch).filter(keeps(root)) == songs.filter(keeps(root)),
    decreases batch.len(),
{
    reveal(Seq::filter);
    if batch.len() > 0 {
        let x = batch.first();
        let grown = if has_path(songs, x.path@) {
            songs
        } else {
            songs.push(x)
        };
        assert(grown.filter(keeps(root)) == songs.filter(keeps(root))) by {
            if !has_path(songs, x.path@) {
                assert(songs.push(x).drop_last() =~= songs);
                assert(!keeps(root)(x));
            }
        }
        assert(forall|k: int|
            0 <= k < batch.drop_first().len() ==> text::is_prefix(
                root,
                (#[trigger] batch.drop_first()[k]).path@,
            )) by {
            assert(forall|k: int|
                0 <= k < batch.drop_first().len() ==> batch.drop_first()[k] == batch[k + 1]);
        }
        lemma_insert_new_filtered(grown, batch.drop_first(), root);
    }
}

/// A filter that admits everything changes nothing.
proof fn lemma_filter_all(songs: Seq<Song>, pred: spec_fn(Song) -> bool)
    requires
        forall|i: int| 0 <= i < songs.len() ==> pred(#[trigger] songs[i]),
    ensures
        songs.filter(pred) == songs,
    decreases songs.len(),
{
    reveal(Seq::filter);
    if songs.len() > 0 {
        let rest = songs.drop_last();
        assert(forall|i: int| 0 <= i < rest.len() ==> rest[i] == songs[i]);
        lemma_filter_all(rest, pred);
        assert(songs.filter(pred) =~= songs);
    }
}

/// Texts absent from a reference list.
pub open spec fn missing_from(l: Seq<Seq<u8>>) -> spec_fn(Seq<u8>) -> bool {
    |x: Seq<u8>| !l.contains(x)
}

/// `has_text` is membership among the views.
proof fn lemma_has_text_views(l: Seq<Vec<u8>>, x: Seq<u8>)
    ensures
        has_text(l, x) == views(l).contains(x),
{
    if has_text(l, x) {
        let w = choose|i: int| 0 <= i < l.len() && l[i]@ == x;
        assert(views(l)[w] == x);
    }
    if views(l).contains(x) {
        let w = choose|i: int| 0 <= i < views(l).len() && views(l)[i] == x;
        assert(l[w]@ == x);
    }
}

impl Library {
    /// Align the store with a declared set of roots: roots no longer
    /// declared leave, and with them every song under one of them; roots
    /// declared but not yet present come back for the caller to scan.
    pub fn sync(&mut self, declared: &Vec<Vec<u8>>) -> (to_add: Vec<Vec<u8>>)
        requires
            old(self).wf(),
        ensures
            final(self).wf(),
            final(self).state == LibState::NeedsUpdate,
            views(to_add@) == views(declared@).filter(missing_from(views(old(self).roots@))),
            final(self).roots@ == old(self).roots@.filter(in_list(views(declared@))),
            final(self).songs@ == old(self).songs@.filter(
                survives(views(old(self).roots@.filter(not_in_list(views(declared@))))),
            ),
    {
        let ghost dv = views(declared@);
        let ghost roots0 = self.roots@;
        // which declared roots are new
        let mut to_add: Vec<Vec<u8>> = Vec::new();
        let dn = declared.len();
        let mut i: usize = 0;
        proof {
            reveal(Seq::filter);
            assert(views(to_add@) =~= views(declared@.subrange(0, 0)).filter(
                missing_from(views(roots0)),
            ));
        }
        while i < dn
            invariant
                dn == declared@.len(),
                i <= dn,
                roots0 == self.roots@,
                views(to_add@) == views(declared@.subrange(0, i as int)).filter(
                    missing_from(views(roots0)),
                ),
                self.songs == old(self).songs,
                self.roots == old(self).roots,
                self.state == old(self).state,
            decreases dn - i,
        {
            let ghost pv = views(declared@.subrange(0, i as int));
            proof {
                reveal(Seq::filter);
                assert(views(declared@.subrange(0, i + 1)) =~= pv.push(declared@[i as int]@));
                assert(views(declared@.subrange(0, i + 1)).drop_last() =~= pv);
                lemma_has_text_views(self.roots@, declared@[i as int]@);
            }
            if !contains_text(&self.roots, &declared[i]) {
                let ghost t0 = to_add@;
                to_add.push(clone_bytes(&declared[i]));
                proof {
                    assert(views(to_add@) =~= views(t0).push(declared@[i as int]@));
                }
            }
            i = i + 1;
        }
        proof {
            assert(declared@.subrange(0, dn as int) =~= declared@);
        }
        // split the roots into the kept and the stale
        let mut olds: Vec<Vec<u8>> = Vec::new();
        core::mem::swap(&mut olds, &mut self.roots);
        let mut kept: Vec<Vec<u8>> = Vec::new();
        let mut stale: Vec<Vec<u8>> = Vec::new();
        let rn = olds.len();
        let mut j: usize = 0;
        proof {
            reveal(Seq::filter);
            assert(olds@ =~= roots0.subrange(0, rn as int));
            assert(kept@ =~= roots0.subrange(0, 0).filter(in_list(dv)));
            assert(stale@ =~= roots0.subrange(0, 0).filter(not_in_list(dv)));
        }
        while j < rn
            invariant
                rn == roots0.len(),
                j <= rn,
                olds@ == roots0.subrange(j as int, rn as int),
                kept@ == roots0.subrange(0, j as int).filter(in_list(dv)),
                stale@ == roots0.subrange(0, j as int).filter(not_in_list(dv)),
                dv == views(declared@),
                self.songs == old(self).songs,
                self.state == old(self).state,
            decreases rn - j,
        {
            let r = olds.remove(0);
            proof {
                assert(r == roots0[j as int]);
                assert(olds@ =~= roots0.subrange(j + 1, rn as int));
                reveal(Seq::filter);
                assert(roots0.subrange(0, j + 1).drop_last() =~= roots0.subrange(0, j as int));
                assert(roots0.subrange(0, j + 1).last() == r);
                lemma_has_text_views(declared@, r@);
            }
            if contains_text(declared, &r) {
                kept.push(r);
            } else {
                stale.push(r);
            }
            j = j + 1;
        }
        proof {
            assert(roots0.subrange(0, rn as int) =~= roots0);
        }
        self.roots = kept;
        // drop the songs under a stale root
        let ghost sv = views(stale@);
        let ghost songs0 = self.songs@;
        let mut oldsongs: Vec<Song> = Vec::new();
        core::mem::swap(&mut oldsongs, &mut self.songs);
        let mut keptsongs: Vec<Song> = Vec::new();
        let sn = oldsongs.len();
        let mut k: usize = 0;
        proof {
            reveal(Seq::filter);
            assert(oldsongs@ =~= songs0.subrange(0, sn as int));
            assert(keptsongs@ =~= songs0.subrange(0, 0).filter(survives(sv)));
        }
        while k < sn
            invariant
                sn == songs0.len(),
                k <= sn,
                oldsongs@ == songs0.subrange(k as int, sn as int),
                keptsongs@ == songs0.subrange(0, k as int).filter(survives(sv)),
                sv == views(stale@),
                unique_paths(songs0),
                self.state == old(self).state,
                self.roots@ == roots0.filter(in_list(dv)),
            decreases sn - k,
        {
            let x = oldsongs.remove(0);
            proof {
                assert(x == songs0[k as int]);
                assert(oldsongs@ =~= songs0.subrange(k + 1, sn as int));
                reveal(Seq::filter);
                assert(songs0.subrange(0, k + 1).drop_last() =~= songs0.subrange(0, k as int));
                assert(songs0.subrange(0, k + 1).last() == x);
            }
            if !under_any(&stale, &x.path) {
                proof {
                    assert(survives(sv)(x));
                }
                keptsongs.push(x);
            } else {
                proof {
                    assert(!survives(sv)(x)) by {
                        let w = choose|q: int|
                            0 <= q < stale@.len() && text::is_prefix(
                                (#[trigger] stale@[q])@,
                                x.path@,
                            );
                        assert(sv[w] == stale@[w]@);
                        assert(sv.contains(stale@[w]@));
                    }
                }
            }
            k = k + 1;
        }
        proof {
            assert(songs0.subrange(0, sn as int) =~= songs0);
            lemma_filter_unique(songs0, survives(sv));
        }
        self.songs = keptsongs;
        self.state = LibState::NeedsUpdate;
        to_add
    }
}

/// Whether some root in the list lies over `path`.
fn under_any(roots: &Vec<Vec<u8>>, path: &Vec<u8>) -> (r: bool)
    ensures
        r == (exists|q: int|
            0 <= q < roots@.len() && text::is_prefix((#[trigger] roots@[q])@, path@)),
{
    let n = roots.len();
    let mut i: usize = 0;
    while i < n
        invariant
            n == roots@.len(),
            i <= n,
            forall|k: int| 0 <= k < i ==> !text::is_prefix((#[trigger] roots@[k])@, path@),
        decreases n - i,
    {
        if text::starts_with(path, &roots[i]) {
            return true;
        }
        i = i + 1;
    }
    false
}

} // verus!
