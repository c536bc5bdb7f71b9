use vstd::prelude::*;

use vstd::multiset::Multiset;

use crate::index::Index;
use crate::library::Library;
use crate::song::clone_bytes;
use crate::text;

verus! {

broadcast use vstd::seq_lib::group_to_multiset_ensures, vstd::multiset::group_multiset_axioms;

/// A song row of the search index: display fields plus the store id that
/// leads back to the library.
#[derive(Debug)]
pub struct Song {
    pub id: usize,
    pub name: Vec<u8>,
    pub album: Vec<u8>,
    pub artist: Vec<u8>,
}

/// An album row of the search index.
#[derive(Debug)]
pub struct Album {
    pub name: Vec<u8>,
    pub artist: Vec<u8>,
}

/// An artist row of the search index.
#[derive(Debug)]
pub struct Artist {
    pub name: Vec<u8>,
}

/// One row of the search index.
#[derive(Debug)]
pub enum Item {
    Song(Song),
    Album(Album),
    Artist(Artist),
}

/// Tie order of the kinds: artists before albums before songs.
pub open spec fn kind_rank(it: Item) -> int {
    match it {
        Item::Artist(_) => 0,
        Item::Album(_) => 1,
        Item::Song(_) => 2,
    }
}

/// The display name a row is matched and ordered by.
pub open spec fn item_name(it: Item) -> Seq<u8> {
    match it {
        Item::Song(s) => s.name@,
        Item::Album(a) => a.name@,
        Item::Artist(a) => a.name@,
    }
}

/// Everything a row holds, as one mathematical tuple: kind, name, artist
/// (empty for artist rows), and store id (zero but for song rows).
pub open spec fn item_key(it: Item) -> (int, Seq<u8>, Seq<u8>, int) {
    match it {
        Item::Song(s) => (2int, s.name@, s.artist@, s.id as int),
        Item::Album(a) => (1int, a.name@, a.artist@, 0int),
        Item::Artist(a) => (0int, a.name@, Seq::empty(), 0int),
    }
}

/// Similarity scale: a row is a match above three quarters.
pub const SCORE_ONE: u32 = 10000;

/// Matching threshold on that scale.
pub const SCORE_THRESHOLD: u32 = 7500;

/// How many rows an empty query seeds.
pub const SEED_RESULTS: usize = 40;

/// Result order: better matches first; equally good matches put artists
/// before albums before songs and then sort by name.
pub open spec fn le_result(a: (u32, Item), b: (u32, Item)) -> bool {
    if a.0 != b.0 {
        a.0 > b.0
    } else if kind_rank(a.1) != kind_rank(b.1) {
        kind_rank(a.1) < kind_rank(b.1)
    } else {
        text::ci_le(item_name(a.1), item_name(b.1))
    }
}

pub open spec fn sorted_results(s: Seq<(u32, Item)>) -> bool {
    forall|i: int, j: int| 0 <= i < j < s.len() ==> le_result(#[trigger] s[i], #[trigger] s[j])
}

/// Scored keys of scored rows.
pub open spec fn result_keys(s: Seq<(u32, Item)>) -> Seq<(u32, (int, Seq<u8>, Seq<u8>, int))> {
    s.map_values(|p: (u32, Item)| (p.0, item_key(p.1)))
}

/// The rows that clear the threshold, paired with their scores.
pub open spec fn matching(cache: Seq<Item>, scores: Seq<u32>) -> Seq<
    (u32, (int, Seq<u8>, Seq<u8>, int)),
>
    decreases cache.len(),
{
    if cache.len() == 0 || scores.len() != cache.len() {
        Seq::empty()
    } else {
        let rest = matching(cache.drop_last(), scores.drop_last());
        if scores.last() > SCORE_THRESHOLD {
            rest.push((scores.last(), item_key(cache.last())))
        } else {
            rest
        }
    }
}

proof fn lemma_le_result_total(a: (u32, Item), b: (u32, Item))
    ensures
        le_result(a, b) || le_result(b, a),
{
    text::lemma_lex_le_total(
        text::lower_seq(item_name(a.1)),
        text::lower_seq(item_name(b.1)),
    );
}

proof fn lemma_le_result_trans(a: (u32, Item), b: (u32, Item), c: (u32, Item))
    requires
        le_result(a, b),
        le_result(b, c),
    ensures
        le_result(a, c),
{
    if a.0 == b.0 && b.0 == c.0 && kind_rank(a.1) == kind_rank(b.1) && kind_rank(b.1) == kind_rank(
        c.1,
    ) {
        text::lemma_lex_le_trans(
            text::lower_seq(item_name(a.1)),
            text::lower_seq(item_name(b.1)),
            text::lower_seq(item_name(c.1)),
        );
    }
}

fn le_result_exec(a: &(u32, Item), b: &(u32, Item)) -> (r: bool)
    ensures
        r == le_result(*a, *b),
{
    if a.0 != b.0 {
        return a.0 > b.0;
    }
    let ra: u8 = match &a.1 {
        Item::Artist(_) => 0,
        Item::Album(_) => 1,
        Item::Song(_) => 2,
    };
    let rb: u8 = match &b.1 {
        Item::Artist(_) => 0,
        Item::Album(_) => 1,
        Item::Song(_) => 2,
    };
    if ra != rb {
        return ra < rb;
    }
    let na = match &a.1 {
        Item::Song(s) => &s.name,
        Item::Album(x) => &x.name,
        Item::Artist(x) => &x.name,
    };
    let nb = match &b.1 {
        Item::Song(s) => &s.name,
        Item::Album(x) => &x.name,
        Item::Artist(x) => &x.name,
    };
    text::ci_le_bytes(na, nb)
}

/// Inserting an element anywhere adds exactly it to the multiset.
proof fn lemma_insert_multiset_r<A>(s: Seq<A>, p: int, x: A)
    requires
        0 <= p <= s.len(),
    ensures
        s.insert(p, x).to_multiset() == s.to_multiset().insert(x),
{
    let l = s.take(p);
    let r = s.skip(p);
    assert(s.insert(p, x) =~= l + (seq![x] + r));
    assert(s =~= l + r);
    vstd::seq_lib::lemma_multiset_commutative(l, seq![x] + r);
    vstd::seq_lib::lemma_multiset_commutative(seq![x], r);
    vstd::seq_lib::lemma_multiset_commutative(l, r);
    assert(seq![x] =~= Seq::<A>::empty().push(x));
    assert(Seq::<A>::empty().push(x).to_multiset() =~= Seq::<A>::empty().to_multiset().insert(x));
    assert(Seq::<A>::empty().to_multiset() =~= Multiset::<A>::empty());
    assert(s.insert(p, x).to_multiset() =~= s.to_multiset().insert(x));
}

/// Sort scored rows into result order.
fn sort_results(v: Vec<(u32, Item)>) -> (out: Vec<(u32, Item)>)
    ensures
        sorted_results(out@),
        result_keys(out@).to_multiset() == result_keys(v@).to_multiset(),
        out@.len() == v@.len(),
{
    let mut rest = v;
    let mut out: Vec<(u32, Item)> = Vec::new();
    proof {
        assert(result_keys(out@) =~= Seq::<(u32, (int, Seq<u8>, Seq<u8>, int))>::empty());
        assert(result_keys(out@).to_multiset() =~= Multiset::<
            (u32, (int, Seq<u8>, Seq<u8>, int)),
        >::empty());
        assert(result_keys(out@).to_multiset().add(result_keys(rest@).to_multiset())
            =~= result_keys(rest@).to_multiset());
    }
    while rest.len() > 0
        invariant
            sorted_results(out@),
            result_keys(out@).to_multiset().add(result_keys(rest@).to_multiset()) == result_keys(
                v@,
            ).to_multiset(),
            out@.len() + rest@.len() == v@.len(),
        decreases rest@.len(),
    {
        let ghost rest0 = rest@;
        let x = rest.remove(0);
        proof {
            assert(result_keys(rest@) =~= result_keys(rest0).remove(0));
            assert(result_keys(rest0).remove(0).to_multiset() =~= result_keys(
                rest0,
            ).to_multiset().remove(result_keys(rest0)[0]));
            assert(result_keys(rest0)[0] == (x.0, item_key(x.1)));
        }
        let mut p: usize = 0;
        while p < out.len() && le_result_exec(&out[p], &x)
            invariant
                p <= out@.len(),
                sorted_results(out@),
                forall|q: int| 0 <= q < p ==> le_result(#[trigger] out@[q], x),
            decreases out@.len() - p,
        {
            p = p + 1;
        }
        proof {
            if p < out@.len() {
                lemma_le_result_total(out@[p as int], x);
                assert forall|q: int| p <= q < out@.len() implies le_result(
                    x,
                    #[trigger] out@[q],
                ) by {
                    if q > p {
                        lemma_le_result_trans(x, out@[p as int], out@[q]);
                    }
                }
            }
        }
        let ghost out0 = out@;
        let ghost xkey = (x.0, item_key(x.1));
        out.insert(p, x);
        proof {
            assert(out@ =~= out0.insert(p as int, out@[p as int]));
            assert(result_keys(out@) =~= result_keys(out0).insert(p as int, xkey));
            lemma_insert_multiset_r(result_keys(out0), p as int, xkey);
            assert(sorted_results(out@)) by {
                assert forall|i: int, j: int| 0 <= i < j < out@.len() implies le_result(
                    #[trigger] out@[i],
                    #[trigger] out@[j],
                ) by {
                    if j < p {
                    } else if i < p && j == p {
                        assert(le_result(out0[i], out@[p as int]));
                    } else if i < p && j > p {
                        assert(le_result(out0[i], out0[j - 1]));
                    } else if i == p {
                        assert(le_result(out@[p as int], out0[j - 1]));
                    } else {
                        assert(le_result(out0[i - 1], out0[j - 1]));
                    }
                }
            }
            assert(result_keys(out@).to_multiset().add(result_keys(rest@).to_multiset())
                =~= result_keys(v@).to_multiset());
        }
    }
    proof {
        assert(result_keys(rest@) =~= Seq::<(u32, (int, Seq<u8>, Seq<u8>, int))>::empty());
        assert(result_keys(rest@).to_multiset() =~= Multiset::<
            (u32, (int, Seq<u8>, Seq<u8>, int)),
        >::empty());
        assert(result_keys(out@).to_multiset() =~= result_keys(v@).to_multiset());
    }
    out
}

/// An owned copy of a row, key for key.
fn clone_item(it: &Item) -> (r: Item)
    ensures
        item_key(r) == item_key(*it),
{
    match it {
        Item::Song(s) => Item::Song(
            Song {
                id: s.id,
                name: clone_bytes(&s.name),
                album: clone_bytes(&s.album),
                artist: clone_bytes(&s.artist),
            },
        ),
        Item::Album(a) => Item::Album(
            Album { name: clone_bytes(&a.name), artist: clone_bytes(&a.artist) },
        ),
        Item::Artist(a) => Item::Artist(Artist { name: clone_bytes(&a.name) }),
    }
}

/// Rank the index rows for one query. `scores` holds, for each cached
/// row, its similarity to the query on the `SCORE_ONE` scale; the caller
/// computed them with its string matcher. An empty query seeds up to
/// `SEED_RESULTS` rows in cache order; otherwise exactly the rows above
/// the threshold come back, best first, ties broken by kind and name.
pub fn rank(cache: &Vec<Item>, scores: &Vec<u32>, query_empty: bool) -> (r: Vec<(u32, Item)>)
    requires
        scores@.len() == cache@.len(),
    ensures
        query_empty ==> {
            &&& r@.len() == (if cache@.len() < SEED_RESULTS {
                cache@.len() as int
            } else {
                SEED_RESULTS as int
            })
            &&& forall|i: int| 0 <= i < r@.len() ==> item_key((#[trigger] r@[i]).1) == item_key(
                cache@[i],
            ) && r@[i].0 == scores@[i]
        },
        !query_empty ==> {
            &&& sorted_results(r@)
            &&& result_keys(r@).to_multiset() == matching(cache@, scores@).to_multiset()
        },
{
    let n = cache.len();
    if query_empty {
        let limit = if n < SEED_RESULTS {
            n
        } else {
            SEED_RESULTS
        };
        let mut out: Vec<(u32, Item)> = Vec::new();
        let mut i: usize = 0;
        while i < limit
            invariant
                limit <= n == cache@.len() == scores@.len(),
                i <= limit,
                out@.len() == i,
                forall|k: int| 0 <= k < i ==> item_key((#[trigger] out@[k]).1) == item_key(
                    cache@[k],
                ) && out@[k].0 == scores@[k],
            decreases limit - i,
        {
            out.push((scores[i], clone_item(&cache[i])));
            i = i + 1;
        }
        return out;
    }
    let mut picked: Vec<(u32, Item)> = Vec::new();
    let mut i: usize = 0;
    proof {
        assert(result_keys(picked@) =~= matching(
            cache@.subrange(0, 0),
            scores@.subrange(0, 0),
        ));
    }
    while i < n
        invariant
            n == cache@.len() == scores@.len(),
            i <= n,
            result_keys(picked@) == matching(
                cache@.subrange(0, i as int),
                scores@.subrange(0, i as int),
            ),
        decreases n - i,
    {
        let ghost cpre = cache@.subrange(0, i as int);
        let ghost spre = scores@.subrange(0, i as int);
        proof {
            assert(cache@.subrange(0, i + 1).drop_last() =~= cpre);
            assert(scores@.subrange(0, i + 1).drop_last() =~= spre);
            assert(cache@.subrange(0, i + 1).last() == cache@[i as int]);
            assert(scores@.subrange(0, i + 1).last() == scores@[i as int]);
        }
        if scores[i] > SCORE_THRESHOLD {
            picked.push((scores[i], clone_item(&cache[i])));
            proof {
                assert(result_keys(picked@) =~= matching(
                    cache@.subrange(0, i + 1),
                    scores@.subrange(0, i + 1),
                ));
            }
        } else {
            proof {
                assert(result_keys(picked@) =~= matching(
                    cache@.subrange(0, i + 1),
                    scores@.subrange(0, i + 1),
                ));
            }
        }
        i = i + 1;
    }
    proof {
        assert(cache@.subrange(0, n as int) =~= cache@);
        assert(scores@.subrange(0, n as int) =~= scores@);
    }
    sort_results(picked)
}

/// Whether the search pane takes typing or walks the results.
#[derive(Debug, PartialEq, Eq, Structural, Clone, Copy)]
pub enum SearchMode {
    Search,
    Select,
}

impl SearchMode {
    /// Flip between typing and selecting.
    pub fn next(&mut self)
        ensures
            *old(self) == SearchMode::Search ==> *final(self) == SearchMode::Select,
            *old(self) == SearchMode::Select ==> *final(self) == SearchMode::Search,
    {
        match self {
            SearchMode::Search => {
                *self = SearchMode::Select;
            },
            SearchMode::Select => {
                *self = SearchMode::Search;
            },
        }
    }

    /// Back to typing.
    pub fn reset(&mut self)
        ensures
            *final(self) == SearchMode::Search,
    {
        *self = SearchMode::Search;
    }
}

/// The search pane: the query being typed, the previous query for change
/// detection, the mode, the ranked results with their selection, and the
/// cached index rows the ranking runs over.
pub struct Search {
    pub query: Vec<u8>,
    pub prev_query: Vec<u8>,
    pub mode: SearchMode,
    pub results: Index<Item>,
    pub cache: Vec<Item>,
}

impl Search {
    pub open spec fn wf(self) -> bool {
        self.results.wf()
    }

    pub fn new() -> (s: Search)
        ensures
            s.wf(),
            s.query@.len() == 0,
            s.prev_query@.len() == 0,
            s.mode == SearchMode::Search,
            s.results.data@.len() == 0,
            s.cache@.len() == 0,
    {
        Search {
            query: Vec::new(),
            prev_query: Vec::new(),
            mode: SearchMode::Search,
            results: Index::empty(),
            cache: Vec::new(),
        }
    }

    /// Install a fresh cache built from the library.
    pub fn set_cache(&mut self, cache: Vec<Item>)
        requires
            old(self).wf(),
        ensures
            final(self).wf(),
            final(self).cache == cache,
            final(self).query == old(self).query,
            final(self).mode == old(self).mode,
    {
        self.cache = cache;
    }

    /// Take one typed character, or move the selection on `j`/`k`.
    pub fn on_key(&mut self, c: u8)
        requires
            old(self).wf(),
            old(self).query@.len() < usize::MAX,
        ensures
            final(self).wf(),
            old(self).mode == SearchMode::Search ==> {
                &&& final(self).query@ == old(self).query@.push(c)
                &&& final(self).prev_query@ == old(self).query@
                &&& final(self).results == old(self).results
            },
            old(self).mode == SearchMode::Select ==> final(self).query == old(self).query,
    {
        if self.mode == SearchMode::Search {
            self.prev_query = clone_bytes(&self.query);
            self.query.push(c);
        } else {
            if c == 107 {
                self.results.up();
            } else if c == 106 {
                self.results.down();
            }
        }
    }

    /// Erase from the query (the whole query with control held), or back
    /// out of selecting.
    pub fn on_backspace(&mut self, control: bool)
        requires
            old(self).wf(),
        ensures
            final(self).wf(),
            old(self).mode == SearchMode::Search && control ==> final(self).query@.len() == 0,
            old(self).mode == SearchMode::Search && !control ==> final(self).query@ == (if old(
                self,
            ).query@.len() > 0 {
                old(self).query@.drop_last()
            } else {
                old(self).query@
            }),
            old(self).mode == SearchMode::Select ==> final(self).mode == SearchMode::Search
                && final(self).query == old(self).query,
    {
        match self.mode {
            SearchMode::Search => {
                if control {
                    self.query.clear();
                } else {
                    let _ = self.query.pop();
                }
            },
            SearchMode::Select => {
                self.mode.next();
            },
        }
    }

    /// Whether the query moved since last asked; asking latches the
    /// current query.
    pub fn has_query_changed(&mut self) -> (r: bool)
        requires
            old(self).wf(),
        ensures
            final(self).wf(),
            r == (old(self).query@ != old(self).prev_query@),
            final(self).query == old(self).query,
            final(self).prev_query@ == old(self).query@,
            final(self).results == old(self).results,
            final(self).mode == old(self).mode,
    {
        if !crate::text::bytes_eq(&self.query, &self.prev_query) {
            self.prev_query = clone_bytes(&self.query);
            true
        } else {
            self.prev_query = clone_bytes(&self.query);
            false
        }
    }

    /// Rank the cache against the caller's similarity scores and install
    /// the outcome as the visible results.
    pub fn update_search(&mut self, scores: &Vec<u32>)
        requires
            old(self).wf(),
            scores@.len() == old(self).cache@.len(),
        ensures
            final(self).wf(),
            final(self).cache == old(self).cache,
            final(self).query == old(self).query,
            final(self).mode == old(self).mode,
            final(self).results.index is None,
            old(self).query@.len() > 0 ==> exists|scored: Seq<(u32, Item)>|
                {
                    &&& sorted_results(scored)
                    &&& result_keys(scored).to_multiset() == matching(
                        old(self).cache@,
                        scores@,
                    ).to_multiset()
                    &&& final(self).results.data@.len() == scored.len()
                    &&& (forall|k: int| #![auto]
                        0 <= k < scored.len() ==> item_key(final(self).results.data@[k])
                            == item_key(scored[k].1))
                },
    {
        let empty = self.query.len() == 0;
        let ranked = rank(&self.cache, scores, empty);
        let ghost scored = ranked@;
        let mut items: Vec<Item> = Vec::new();
        let n = ranked.len();
        let mut i: usize = 0;
        let mut ranked = ranked;
        while i < n
            invariant
                n == scored.len(),
                i <= n,
                ranked@ == scored.skip(i as int),
                items@.len() == i,
                forall|k: int| #![auto]
                    0 <= k < i ==> item_key(items@[k]) == item_key(scored[k].1),
            decreases n - i,
        {
            let p = ranked.remove(0);
            proof {
                assert(scored.skip(i as int)[0] == scored[i as int]);
                assert(scored.skip(i as int).remove(0) =~= scored.skip(i + 1));
            }
            items.push(p.1);
            i = i + 1;
        }
        self.results = Index::new(items, None);
    }

    pub fn up(&mut self)
        requires
            old(self).wf(),
        ensures
            final(self).wf(),
    {
        self.results.up();
    }

    pub fn down(&mut self)
        requires
            old(self).wf(),
        ensures
            final(self).wf(),
    {
        self.results.down();
    }

    /// Back to typing with nothing selected.
    pub fn reset(&mut self)
        requires
            old(self).wf(),
        ensures
            final(self).wf(),
            final(self).mode == SearchMode::Search,
            final(self).results.index is None,
            final(self).results.data@ == old(self).results.data@,
            final(self).query == old(self).query,
    {
        self.mode.reset();
        self.results.select(None);
    }

    pub fn is_empty(&self) -> (r: bool)
        ensures
            r == (self.results.data@.len() == 0 && self.query@.len() == 0),
    {
        self.results.is_empty() && self.query.len() == 0
    }

    pub fn empty_cursor(&self) -> (r: bool)
        ensures
            r == (self.results.index is None && self.query@.len() == 0),
    {
        self.results.is_none() && self.query.len() == 0
    }

    pub fn show_cursor(&self) -> (r: bool)
        ensures
            r == (self.mode == SearchMode::Search),
    {
        self.mode == SearchMode::Search
    }

    /// The query's length, saturated to the interface's scale.
    pub fn query_len(&self) -> (r: u16)
        ensures
            r == (if self.query@.len() <= u16::MAX {
                self.query@.len() as u16
            } else {
                u16::MAX
            }),
    {
        let n = self.query.len();
        if n <= u16::MAX as usize {
            n as u16
        } else {
            u16::MAX
        }
    }

    pub fn get_query(&self) -> (r: Vec<u8>)
        ensures
            r@ == self.query@,
    {
        clone_bytes(&self.query)
    }

    pub fn results(&self) -> (r: &Vec<Item>)
        ensures
            r == &self.results.data,
    {
        &self.results.data
    }

    pub fn selected(&self) -> (r: Option<usize>)
        ensures
            r == self.results.index,
    {
        self.results.selection()
    }

    /// Leave the search pane: while typing, the query clears and the pane
    /// closes; while selecting, only the selection backs out.
    pub fn exit_search(&mut self) -> (closed: bool)
        requires
            old(self).wf(),
        ensures
            final(self).wf(),
            old(self).mode == SearchMode::Search ==> closed && final(self).query@.len() == 0,
            old(self).mode == SearchMode::Select ==> !closed && final(self).mode
                == SearchMode::Search && final(self).results.index is None,
    {
        match self.mode {
            SearchMode::Search => {
                self.query.clear();
                true
            },
            SearchMode::Select => {
                self.mode.next();
                self.results.select(None);
                false
            },
        }
    }

    /// Confirm: while typing this turns to selecting the first result;
    /// while selecting it resolves the chosen row against the library and
    /// returns its songs.
    pub fn get_songs(&mut self, lib: &Library) -> (r: Option<Vec<crate::song::Song>>)
        requires
            old(self).wf(),
        ensures
            final(self).wf(),
            old(self).mode == SearchMode::Search ==> {
                &&& r is None
                &&& ((old(self).results.data@.len() > 0 || old(self).query@.len() > 0)
                    ==> final(self).mode == SearchMode::Select)
                &&& (old(self).results.data@.len() > 0 ==> final(self).results.index == Some(
                    0usize,
                ))
            },
            old(self).mode == SearchMode::Select ==> match old(self).results.index {
                Some(i) => match old(self).results.data@[i as int] {
                    Item::Song(s) => (s.id as int) < lib.songs@.len() ==> (r is Some
                        && r->0@.len() == 1 && r->0@[0].key() == lib.songs@[s.id as int].key()),
                    Item::Album(al) => r is Some && crate::library::sorted_songs(r->0@)
                        && crate::library::keys(r->0@).to_multiset() == crate::library::keys(
                        lib.songs@.filter(crate::library::by_album(al.name@, al.artist@)),
                    ).to_multiset(),
                    Item::Artist(a) => r is Some && crate::library::sorted_songs(r->0@)
                        && crate::library::keys(r->0@).to_multiset() == crate::library::keys(
                        lib.songs@.filter(crate::library::by_artist(a.name@)),
                    ).to_multiset(),
                },
                None => r is None,
            },
    {
        match self.mode {
            SearchMode::Search => {
                if self.results.len() > 0 || self.query.len() > 0 {
                    self.mode.next();
                    if self.results.len() > 0 {
                        self.results.select(Some(0));
                    }
                }
                None
            },
            SearchMode::Select => {
                match self.results.selected() {
                    Some(item) => match item {
                        Item::Song(s) => match lib.song_by_id(s.id) {
                            Some(song) => {
                                let mut v: Vec<crate::song::Song> = Vec::new();
                                v.push(song);
                                Some(v)
                            },
                            None => None,
                        },
                        Item::Album(a) => Some(lib.songs_for_album(&a.name, &a.artist)),
                        Item::Artist(a) => Some(lib.songs_for_artist(&a.name)),
                    },
                    None => None,
                }
            },
        }
    }
}

/// A non-song row earns its place: some stored song carries its artist
/// (and, for an album row, its album).
pub open spec fn row_justified(it: Item, songs: Seq<crate::song::Song>) -> bool {
    match it {
        Item::Song(_) => true,
        Item::Album(al) => exists|i: int|
            0 <= i < songs.len() && (#[trigger] songs[i]).artist@ == al.artist@ && songs[i].album@
                == al.name@,
        Item::Artist(a) => exists|i: int|
            0 <= i < songs.len() && (#[trigger] songs[i]).artist@ == a.name@,
    }
}

/// Build the search cache from the library: one row per stored song, one
/// per distinct album of each artist, one per distinct artist. Every
/// album and artist row is backed by at least one stored song.
pub fn build_cache(lib: &Library) -> (cache: Vec<Item>)
    ensures
        cache@.len() >= lib.songs@.len(),
        forall|i: int| 0 <= i < lib.songs@.len() ==> item_key(#[trigger] cache@[i]) == (
            2int,
            lib.songs@[i].title@,
            lib.songs@[i].artist@,
            i,
        ),
        forall|k: int| lib.songs@.len() <= k < cache@.len() ==> row_justified(
            #[trigger] cache@[k],
            lib.songs@,
        ),
{
    let mut cache: Vec<Item> = Vec::new();
    let n = lib.songs.len();
    let mut i: usize = 0;
    while i < n
        invariant
            n == lib.songs@.len(),
            i <= n,
            cache@.len() == i,
            forall|k: int| 0 <= k < i ==> item_key(#[trigger] cache@[k]) == (
                2int,
                lib.songs@[k].title@,
                lib.songs@[k].artist@,
                k,
            ),
        decreases n - i,
    {
        let s = &lib.songs[i];
        cache.push(
            Item::Song(
                Song {
                    id: i,
                    name: clone_bytes(&s.title),
                    album: clone_bytes(&s.album),
                    artist: clone_bytes(&s.artist),
                },
            ),
        );
        i = i + 1;
    }
    let ghost song_rows = cache@;
    proof {
        assert(song_rows.len() == lib.songs@.len());
        assert(forall|k: int| 0 <= k < song_rows.len() ==> item_key(#[trigger] song_rows[k]) == (
            2int,
            lib.songs@[k].title@,
            lib.songs@[k].artist@,
            k,
        ));
    }
    // album rows: each artist's distinct albums
    let artists = lib.artists();
    let an = artists.len();
    let mut a: usize = 0;
    while a < an
        invariant
            an == artists@.len(),
            a <= an,
            cache@.len() >= song_rows.len(),
            song_rows.len() == lib.songs@.len(),
            forall|k: int| 0 <= k < song_rows.len() ==> cache@[k] == song_rows[k],
            forall|k: int| song_rows.len() <= k < cache@.len() ==> row_justified(
                #[trigger] cache@[k],
                lib.songs@,
            ),
            forall|x: Seq<u8>| crate::library::has_text(artists@, x) == (exists|i: int|
                0 <= i < lib.songs@.len() && (#[trigger] lib.songs@[i]).artist@ == x),
        decreases an - a,
    {
        let albums = lib.albums_for_artist(&artists[a]);
        let bn = albums.len();
        let mut b: usize = 0;
        while b < bn
            invariant
                bn == albums@.len(),
                b <= bn,
                a < an == artists@.len(),
                cache@.len() >= song_rows.len(),
                song_rows.len() == lib.songs@.len(),
                forall|k: int| 0 <= k < song_rows.len() ==> cache@[k] == song_rows[k],
                forall|k: int| song_rows.len() <= k < cache@.len() ==> row_justified(
                    #[trigger] cache@[k],
                    lib.songs@,
                ),
                forall|x: Seq<u8>| crate::library::has_text(albums@, x) == (exists|i: int|
                    0 <= i < lib.songs@.len() && (#[trigger] lib.songs@[i]).artist@
                        == artists@[a as int]@ && lib.songs@[i].album@ == x),
            decreases bn - b,
        {
            let row = Item::Album(
                Album { name: clone_bytes(&albums[b]), artist: clone_bytes(&artists[a]) },
            );
            proof {
                assert(crate::library::has_text(albums@, albums@[b as int]@)) by {
                    assert(albums@[b as int]@ == albums@[b as int]@);
                }
                assert(row_justified(row, lib.songs@));
            }
            cache.push(row);
            b = b + 1;
        }
        let row = Item::Artist(Artist { name: clone_bytes(&artists[a]) });
        proof {
            assert(crate::library::has_text(artists@, artists@[a as int]@)) by {
                assert(artists@[a as int]@ == artists@[a as int]@);
            }
            assert(row_justified(row, lib.songs@));
        }
        cache.push(row);
        a = a + 1;
    }
    proof {
        assert(forall|i: int| 0 <= i < lib.songs@.len() ==> item_key(#[trigger] cache@[i])
            == item_key(song_rows[i]));
    }
    cache
}

} // verus!
