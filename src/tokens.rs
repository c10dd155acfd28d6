use vstd::prelude::*;

verus! {

/// Bracket kinds that open and close a nested token group.
#[derive(Clone, Copy, PartialEq, Eq, Debug)]
pub enum Delim {
    Paren,
    Bracket,
    Brace,
}

/// One token of an attribute or declaration, with groups flattened into
/// explicit open and close markers.
#[derive(Debug)]
pub enum Tok {
    Ident(String),
    Punct(char),
    Lit(String),
    Open(Delim),
    Close(Delim),
}

/// How a token changes the bracket depth.
pub open spec fn delta(t: Tok) -> int {
    match t {
        Tok::Open(_) => 1,
        Tok::Close(_) => -1,
        _ => 0,
    }
}

/// Bracket depth of the range `lo..n`, counted from zero at `lo`.
pub open spec fn depth(s: Seq<Tok>, lo: int, n: int) -> int
    decreases n - lo,
{
    if n <= lo {
        0
    } else {
        depth(s, lo, n - 1) + delta(s[n - 1])
    }
}

/// In `lo..hi`, every prefix closes no more groups than it opened, and all
/// groups are closed.
pub open spec fn balanced(s: Seq<Tok>, lo: int, hi: int) -> bool {
    &&& forall|i: int| lo <= i <= hi ==> #[trigger] depth(s, lo, i) >= 0
    &&& depth(s, lo, hi) == 0
}

pub open spec fn is_comma(t: Tok) -> bool {
    t == Tok::Punct(',')
}

/// A comma of `lo..hi` that separates arguments: one not nested inside any
/// group. Angle brackets are plain punctuation here and never nest.
pub open spec fn is_separator(s: Seq<Tok>, lo: int, hi: int, i: int) -> bool {
    lo <= i < hi && is_comma(s[i]) && depth(s, lo, i) == 0
}

/// The segments `v` cut `lo..hi` exactly at its separators, in order.
pub open spec fn segments_of(s: Seq<Tok>, lo: int, hi: int, v: Seq<(usize, usize)>) -> bool {
    &&& v.len() >= 1
    &&& v[0].0 == lo
    &&& v[v.len() - 1].1 == hi
    &&& forall|k: int| 0 <= k < v.len() ==> lo <= #[trigger] v[k].0 <= v[k].1 <= hi
    &&& forall|k: int|
        0 <= k < v.len() - 1 ==> is_separator(s, lo, hi, #[trigger] v[k].1 as int) && v[k + 1].0
            == v[k].1 + 1
    &&& forall|k: int, i: int|
        0 <= k < v.len() && #[trigger] v[k].0 <= i < v[k].1 ==> !#[trigger] is_separator(s, lo, hi, i)
}

/// Splits `lo..hi` into argument segments at its top-level commas. A comma
/// inside parentheses, brackets or braces never splits. `None` when the
/// brackets of the range do not balance.
pub fn split_arguments(toks: &Vec<Tok>, lo: usize, hi: usize) -> (r: Option<Vec<(usize, usize)>>)
    requires
        lo <= hi <= toks.len(),
    ensures
        r.is_some() <==> balanced(toks@, lo as int, hi as int),
        r matches Some(v) ==> segments_of(toks@, lo as int, hi as int, v@),
{
    let mut segs: Vec<(usize, usize)> = Vec::new();
    let mut start: usize = lo;
    let mut d: usize = 0;
    let mut i: usize = lo;
    while i < hi
        invariant
            lo <= start <= i <= hi <= toks.len(),
            d as int == depth(toks@, lo as int, i as int),
            d <= i - lo,
            forall|j: int| lo <= j <= i ==> #[trigger] depth(toks@, lo as int, j) >= 0,
            segs.len() == 0 ==> start == lo,
            segs.len() > 0 ==> segs[0].0 == lo && start == segs[segs.len() - 1].1 + 1,
            forall|k: int| 0 <= k < segs.len() ==> lo <= #[trigger] segs[k].0 <= segs[k].1 < i,
            forall|k: int|
                0 <= k < segs.len() ==> is_separator(toks@, lo as int, hi as int, #[trigger] segs[k].1 as int),
            forall|k: int| 0 <= k < segs.len() - 1 ==> segs[k + 1].0 == #[trigger] segs[k].1 + 1,
            forall|k: int, j: int|
                0 <= k < segs.len() && #[trigger] segs[k].0 <= j < segs[k].1 ==> !#[trigger] is_separator(toks@, lo as int, hi as int, j),
            forall|j: int| start <= j < i ==> !is_separator(toks@, lo as int, hi as int, j),
        decreases hi - i,
    {
        match &toks[i] {
            Tok::Open(_) => {
                d = d + 1;
            },
            Tok::Close(_) => {
                if d == 0 {
                    assert(depth(toks@, lo as int, i + 1) < 0);
                    return None;
                }
                d = d - 1;
            },
            Tok::Punct(c) => {
                if *c == ',' && d == 0 {
                    segs.push((start, i));
                    start = i + 1;
                }
            },
            _ => {},
        }
        i = i + 1;
    }
    if d != 0 {
        return None;
    }
    segs.push((start, hi));
    Some(segs)
}

/// A range has at most one segmentation.
pub proof fn lemma_segments_unique(s: Seq<Tok>, lo: int, hi: int, v1: Seq<(usize, usize)>, v2: Seq<(usize, usize)>)
    requires
        segments_of(s, lo, hi, v1),
        segments_of(s, lo, hi, v2),
    ensures
        v1 == v2,
    decreases v1.len() + v2.len(),
{
    let n = if v1.len() < v2.len() { v1.len() } else { v2.len() };
    assert forall|k: int| 0 <= k < n implies v1[k] == v2[k] by {
        lemma_segment_agrees(s, lo, hi, v1, v2, k);
    }
    if v1.len() < v2.len() {
        assert(v1[n - 1] == v2[n - 1]);
        assert(is_separator(s, lo, hi, v2[n - 1].1 as int));
    } else if v2.len() < v1.len() {
        assert(v1[n - 1] == v2[n - 1]);
        assert(is_separator(s, lo, hi, v1[n - 1].1 as int));
    }
    assert(v1 =~= v2);
}

proof fn lemma_segment_agrees(s: Seq<Tok>, lo: int, hi: int, v1: Seq<(usize, usize)>, v2: Seq<(usize, usize)>, k: int)
    requires
        segments_of(s, lo, hi, v1),
        segments_of(s, lo, hi, v2),
        0 <= k < v1.len(),
        k < v2.len(),
    ensures
        v1[k] == v2[k],
    decreases k,
{
    if k > 0 {
        lemma_segment_agrees(s, lo, hi, v1, v2, k - 1);
        assert(v1[k].0 == v1[k - 1].1 + 1);
        assert(v2[k].0 == v2[k - 1].1 + 1);
    }
    let a = v1[k].0;
    if v1[k].1 < v2[k].1 {
        if k < v1.len() - 1 {
            assert(is_separator(s, lo, hi, v1[k].1 as int));
            assert(v2[k].0 <= v1[k].1 < v2[k].1);
        }
    }
    if v2[k].1 < v1[k].1 {
        if k < v2.len() - 1 {
            assert(is_separator(s, lo, hi, v2[k].1 as int));
            assert(v1[k].0 <= v2[k].1 < v1[k].1);
        }
    }
}

} // verus!
