use vstd::prelude::*;

verus! {

// Text fields (titles, artists, paths, playlist names) are carried as UTF-8
// bytes. All ordering here is bytewise, with ASCII letters folded to lower
// case first, so equal inputs always compare equally.

/// ASCII lower-case fold of one byte.
pub open spec fn lower(c: u8) -> u8 {
    if 65 <= c <= 90 {
        (c + 32) as u8
    } else {
        c
    }
}

/// ASCII lower-case fold of a whole text.
pub open spec fn lower_seq(s: Seq<u8>) -> Seq<u8> {
    s.map_values(|c: u8| lower(c))
}

/// Lexicographic "less or equal" on byte texts.
pub open spec fn lex_le(a: Seq<u8>, b: Seq<u8>) -> bool
    decreases a.len(),
{
    if a.len() == 0 {
        true
    } else if b.len() == 0 {
        false
    } else if a[0] < b[0] {
        true
    } else if a[0] > b[0] {
        false
    } else {
        lex_le(a.drop_first(), b.drop_first())
    }
}

/// Case-insensitive order: compare the folded texts.
pub open spec fn ci_le(a: Seq<u8>, b: Seq<u8>) -> bool {
    lex_le(lower_seq(a), lower_seq(b))
}

/// Any two texts are comparable.
pub proof fn lemma_lex_le_total(a: Seq<u8>, b: Seq<u8>)
    ensures
        lex_le(a, b) || lex_le(b, a),
    decreases a.len(),
{
    if a.len() == 0 || b.len() == 0 {
    } else if a[0] == b[0] {
        lemma_lex_le_total(a.drop_first(), b.drop_first());
    }
}

/// The order chains: below and above compose.
pub proof fn lemma_lex_le_trans(a: Seq<u8>, b: Seq<u8>, c: Seq<u8>)
    requires
        lex_le(a, b),
        lex_le(b, c),
    ensures
        lex_le(a, c),
    decreases a.len(),
{
    if a.len() == 0 {
    } else if b.len() == 0 {
    } else if c.len() == 0 {
    } else {
        if a[0] == b[0] && b[0] == c[0] {
            lemma_lex_le_trans(a.drop_first(), b.drop_first(), c.drop_first());
        }
    }
}

/// Texts below each other are the same text.
pub proof fn lemma_lex_le_antisym(a: Seq<u8>, b: Seq<u8>)
    requires
        lex_le(a, b),
        lex_le(b, a),
    ensures
        a == b,
    decreases a.len(),
{
    if a.len() == 0 {
        assert(b.len() == 0);
        assert(a =~= b);
    } else {
        assert(b.len() > 0);
        lemma_lex_le_antisym(a.drop_first(), b.drop_first());
        assert(a =~= seq![a[0]] + a.drop_first());
        assert(b =~= seq![b[0]] + b.drop_first());
    }
}

/// Case-insensitively tied texts fold to the same text.
pub proof fn lemma_ci_tie(a: Seq<u8>, b: Seq<u8>)
    requires
        ci_le(a, b),
        ci_le(b, a),
    ensures
        lower_seq(a) == lower_seq(b),
{
    lemma_lex_le_antisym(lower_seq(a), lower_seq(b));
}

/// Exact equality of two byte texts.
pub fn bytes_eq(a: &Vec<u8>, b: &Vec<u8>) -> (r: bool)
    ensures
        r == (a@ == b@),
{
    if a.len() != b.len() {
        assert(a@ != b@) by {
            assert(a@.len() != b@.len());
        }
        return false;
    }
    let n = a.len();
    let mut i: usize = 0;
    while i < n
        invariant
            n == a@.len() == b@.len(),
            i <= n,
            forall|k: int| 0 <= k < i ==> a@[k] == b@[k],
        decreases n - i,
    {
        if a[i] != b[i] {
            return false;
        }
        i = i + 1;
    }
    proof {
        assert(a@ =~= b@);
    }
    true
}

/// Fold one byte to ASCII lower case.
pub fn lower_byte(c: u8) -> (r: u8)
    ensures
        r == lower(c),
{
    if 65 <= c && c <= 90 {
        c + 32
    } else {
        c
    }
}

/// Case-insensitive "less or equal" on byte texts.
pub fn ci_le_bytes(a: &Vec<u8>, b: &Vec<u8>) -> (r: bool)
    ensures
        r == ci_le(a@, b@),
{
    let an = a.len();
    let bn = b.len();
    let mut i: usize = 0;
    proof {
        assert(lower_seq(a@).skip(0) =~= lower_seq(a@));
        assert(lower_seq(b@).skip(0) =~= lower_seq(b@));
    }
    loop
        invariant
            an == a@.len(),
            bn == b@.len(),
            i <= an,
            i <= bn,
            lex_le(lower_seq(a@), lower_seq(b@)) == lex_le(
                lower_seq(a@).skip(i as int),
                lower_seq(b@).skip(i as int),
            ),
        decreases an - i,
    {
        proof {
            lemma_skip_is_suffix(lower_seq(a@), i as int);
            lemma_skip_is_suffix(lower_seq(b@), i as int);
        }
        if i >= an {
            assert(lower_seq(a@).skip(i as int).len() == 0);
            return true;
        }
        if i >= bn {
            assert(lower_seq(b@).skip(i as int).len() == 0);
            assert(lower_seq(a@).skip(i as int).len() > 0);
            return false;
        }
        let ca = lower_byte(a[i]);
        let cb = lower_byte(b[i]);
        assert(lower_seq(a@).skip(i as int)[0] == lower(a@[i as int]));
        assert(lower_seq(b@).skip(i as int)[0] == lower(b@[i as int]));
        if ca < cb {
            return true;
        }
        if ca > cb {
            return false;
        }
        proof {
            assert(lower_seq(a@).skip(i as int).drop_first() =~= lower_seq(a@).skip(i + 1));
            assert(lower_seq(b@).skip(i as int).drop_first() =~= lower_seq(b@).skip(i + 1));
        }
        i = i + 1;
    }
}

proof fn lemma_skip_is_suffix(s: Seq<u8>, i: int)
    requires
        0 <= i <= s.len(),
    ensures
        s.skip(i).len() == s.len() - i,
        forall|k: int| 0 <= k < s.len() - i ==> s.skip(i)[k] == s[i + k],
{
}

/// `p` is an initial segment of `s`.
pub open spec fn is_prefix(p: Seq<u8>, s: Seq<u8>) -> bool {
    p.len() <= s.len() && s.subrange(0, p.len() as int) == p
}

/// `x` is a final segment of `s`.
pub open spec fn is_suffix(x: Seq<u8>, s: Seq<u8>) -> bool {
    x.len() <= s.len() && s.subrange(s.len() - x.len(), s.len() as int) == x
}

pub fn starts_with(s: &Vec<u8>, p: &Vec<u8>) -> (r: bool)
    ensures
        r == is_prefix(p@, s@),
{
    let pn = p.len();
    if pn > s.len() {
        return false;
    }
    let mut i: usize = 0;
    while i < pn
        invariant
            pn == p@.len() <= s@.len(),
            i <= pn,
            forall|k: int| 0 <= k < i ==> s@[k] == p@[k],
        decreases pn - i,
    {
        if s[i] != p[i] {
            assert(s@.subrange(0, pn as int)[i as int] != p@[i as int]);
            return false;
        }
        i = i + 1;
    }
    proof {
        assert(s@.subrange(0, pn as int) =~= p@);
    }
    true
}

pub fn ends_with(s: &Vec<u8>, x: &Vec<u8>) -> (r: bool)
    ensures
        r == is_suffix(x@, s@),
    {
    let xn = x.len();
    let sn = s.len();
    if xn > sn {
        return false;
    }
    let off = sn - xn;
    let mut i: usize = 0;
    while i < xn
        invariant
            xn == x@.len(),
            sn == s@.len(),
            xn <= sn,
            off == sn - xn,
            i <= xn,
            forall|k: int| 0 <= k < i ==> s@[off + k] == x@[k],
        decreases xn - i,
    {
        if s[off + i] != x[i] {
            assert(s@.subrange(off as int, sn as int)[i as int] != x@[i as int]);
            return false;
        }
        i = i + 1;
    }
    proof {
        assert(s@.subrange(off as int, sn as int) =~= x@);
    }
    true
}

} // verus!
