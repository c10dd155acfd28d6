use vstd::prelude::*;
use crate::tokens::{Tok, Delim, balanced, segments_of, is_separator, split_arguments, lemma_segments_unique};

verus! {

/// The value part of one attribute argument, as token ranges.
#[derive(Clone, Copy, PartialEq, Eq, Structural, Debug)]
pub enum ArgValue {
    /// `key`
    Flag,
    /// `key = value`: the value's tokens.
    Assign(usize, usize),
    /// `key(...)`: the tokens inside the parentheses.
    Call(usize, usize),
}

/// One argument of an attribute: its key, its token range `at..end` and its value.
#[derive(Debug)]
pub struct Arg {
    pub key: String,
    pub at: usize,
    pub end: usize,
    pub value: ArgValue,
}

/// The shape of the argument spanning `lo..hi`, if it is well formed.
pub open spec fn arg_of(s: Seq<Tok>, lo: int, hi: int) -> Option<(Seq<char>, ArgValue)> {
    if 0 <= lo < hi <= s.len() {
        match s[lo] {
            Tok::Ident(k) => if hi - lo == 1 {
                Some((k@, ArgValue::Flag))
            } else if hi - lo >= 3 && s[lo + 1] == Tok::Punct('=') {
                Some((k@, ArgValue::Assign((lo + 2) as usize, hi as usize)))
            } else if hi - lo >= 3 && s[lo + 1] == Tok::Open(Delim::Paren) && s[hi - 1] == Tok::Close(
                Delim::Paren,
            ) {
                Some((k@, ArgValue::Call((lo + 2) as usize, (hi - 1) as usize)))
            } else {
                None
            },
            _ => None,
        }
    } else {
        None
    }
}

/// `a` is the argument spanning its own range.
pub open spec fn arg_matches(s: Seq<Tok>, a: Arg) -> bool {
    arg_of(s, a.at as int, a.end as int) == Some((a.key@, a.value))
}

/// Reads the argument spanning `lo..hi`.
pub fn parse_arg(toks: &Vec<Tok>, lo: usize, hi: usize) -> (r: Option<Arg>)
    requires
        lo <= hi <= toks.len(),
    ensures
        r.is_some() <==> arg_of(toks@, lo as int, hi as int).is_some(),
        r matches Some(a) ==> a.at == lo && a.end == hi && arg_matches(toks@, a),
{
    if lo == hi {
        return None;
    }
    let key = match &toks[lo] {
        Tok::Ident(k) => k.clone(),
        _ => return None,
    };
    let value = if hi - lo == 1 {
        ArgValue::Flag
    } else if hi - lo >= 3 && matches!(toks[lo + 1], Tok::Punct('=')) {
        ArgValue::Assign(lo + 2, hi)
    } else if hi - lo >= 3 && matches!(toks[lo + 1], Tok::Open(Delim::Paren)) && matches!(
        toks[hi - 1],
        Tok::Close(Delim::Paren)
    ) {
        ArgValue::Call(lo + 2, hi - 1)
    } else {
        return None;
    };
    Some(Arg { key, at: lo, end: hi, value })
}

/// The arguments `v` are the non-empty segments of `lo..hi`, in order; only the
/// last segment may be empty (an empty list, or a trailing comma).
pub open spec fn args_of(s: Seq<Tok>, lo: int, hi: int, v: Seq<Arg>) -> bool {
    &&& forall|k: int| 0 <= k < v.len() ==> arg_matches(s, #[trigger] v[k])
    &&& forall|k: int| 0 <= k < v.len() ==> lo <= #[trigger] v[k].at < v[k].end <= hi
    &&& v.len() > 0 ==> v[0].at == lo
    &&& forall|k: int|
        0 <= k < v.len() - 1 ==> is_separator(s, lo, hi, #[trigger] v[k].end as int) && v[k + 1].at
            == v[k].end + 1
    &&& forall|k: int, i: int|
        0 <= k < v.len() && #[trigger] v[k].at <= i < v[k].end ==> !#[trigger] is_separator(
            s,
            lo,
            hi,
            i,
        )
    &&& v.len() == 0 ==> lo == hi
    &&& v.len() > 0 ==> (v[v.len() - 1].end == hi || (is_separator(s, lo, hi, v[v.len() - 1].end as int)
        && v[v.len() - 1].end + 1 == hi))
}

/// The segments that the arguments `a` of `lo..hi` occupy, with the empty
/// segment after a trailing comma.
pub open spec fn arg_bounds(a: Seq<Arg>, lo: int, hi: int) -> Seq<(usize, usize)> {
    if a.len() == 0 {
        seq![(lo as usize, hi as usize)]
    } else {
        let b = Seq::new(a.len(), |k: int| (a[k].at, a[k].end));
        if a[a.len() - 1].end == hi {
            b
        } else {
            b.push((hi as usize, hi as usize))
        }
    }
}

/// Every segment is an argument, but possibly an empty last one.
#[verifier::opaque]
pub open spec fn segments_read(s: Seq<Tok>, segs: Seq<(usize, usize)>) -> bool {
    forall|j: int|
        0 <= j < segs.len() ==> (segs[j].0 == segs[j].1 && j == segs.len() - 1) || #[trigger] arg_of(
            s,
            segs[j].0 as int,
            segs[j].1 as int,
        ) is Some
}

/// Two argument lists agree in every position, key, span and value.
pub open spec fn args_agree(a1: Seq<Arg>, a2: Seq<Arg>) -> bool {
    &&& a1.len() == a2.len()
    &&& forall|k: int|
        0 <= k < a1.len() ==> (#[trigger] a1[k]).at == a2[k].at && a1[k].end == a2[k].end && a1[k].value
            == a2[k].value && a1[k].key@ == a2[k].key@
}

proof fn lemma_arg_bounds(s: Seq<Tok>, lo: int, hi: int, a: Seq<Arg>)
    requires
        args_of(s, lo, hi, a),
        0 <= lo <= hi <= usize::MAX,
    ensures
        segments_of(s, lo, hi, arg_bounds(a, lo, hi)),
{
    let v = arg_bounds(a, lo, hi);
    if a.len() > 0 {
        let n = a.len();
        assert forall|k: int| 0 <= k < v.len() - 1 implies is_separator(s, lo, hi, #[trigger] v[k].1 as int) && v[k
            + 1].0 == v[k].1 + 1 by {
            if k < n - 1 {
            } else {
                assert(k == n - 1);
            }
        }
        assert forall|k: int, i: int| 0 <= k < v.len() && #[trigger] v[k].0 <= i < v[k].1 implies !#[trigger] is_separator(
            s,
            lo,
            hi,
            i,
        ) by {
            if k < n {
                assert(a[k].at <= i < a[k].end);
            }
        }
    }
}

/// Two readings of one argument list agree.
pub proof fn lemma_args_unique(s: Seq<Tok>, lo: int, hi: int, a1: Seq<Arg>, a2: Seq<Arg>)
    requires
        args_of(s, lo, hi, a1),
        args_of(s, lo, hi, a2),
        0 <= lo <= hi <= usize::MAX,
    ensures
        args_agree(a1, a2),
{
    lemma_arg_bounds(s, lo, hi, a1);
    lemma_arg_bounds(s, lo, hi, a2);
    let b1 = arg_bounds(a1, lo, hi);
    let b2 = arg_bounds(a2, lo, hi);
    lemma_segments_unique(s, lo, hi, b1, b2);
    let n1 = a1.len();
    let n2 = a2.len();
    if n1 == 0 && n2 > 0 {
        assert(b2[0] == (a2[0].at, a2[0].end));
    }
    if n2 == 0 && n1 > 0 {
        assert(b1[0] == (a1[0].at, a1[0].end));
    }
    if 0 < n1 < n2 {
        assert(b2[n1 as int] == (a2[n1 as int].at, a2[n1 as int].end));
    }
    if 0 < n2 < n1 {
        assert(b1[n2 as int] == (a1[n2 as int].at, a1[n2 as int].end));
    }
    assert forall|k: int| 0 <= k < n1 implies (#[trigger] a1[k]).at == a2[k].at && a1[k].end == a2[k].end
        && a1[k].value == a2[k].value && a1[k].key@ == a2[k].key@ by {
        assert(b1[k] == (a1[k].at, a1[k].end));
        assert(b2[k] == (a2[k].at, a2[k].end));
    }
}

/// Some segment of `lo..hi` starting at `at` (bounded by the range's ends
/// or by separators) is not an argument.
pub open spec fn malformed_at(s: Seq<Tok>, lo: int, hi: int, at: int) -> bool {
    exists|e: int|
        lo <= at <= e <= hi && #[trigger] arg_of(s, at, e) is None && (e == hi || is_separator(s, lo, hi, e)) && (
        at == lo || is_separator(s, lo, hi, at - 1))
}

/// Why an argument list could not be read.
#[derive(Clone, Copy, PartialEq, Eq, Structural, Debug)]
pub enum ArgError {
    /// The brackets of the list do not balance.
    Unbalanced,
    /// The segment starting at this offset is not an argument.
    Malformed(usize),
}

fn args_from_segments(toks: &Vec<Tok>, lo: usize, hi: usize, segs: &Vec<(usize, usize)>) -> (r: Result<Vec<Arg>, ArgError>)
    requires
        lo <= hi <= toks.len(),
        segments_of(toks@, lo as int, hi as int, segs@),
        balanced(toks@, lo as int, hi as int),
    ensures
        r matches Ok(v) ==> args_of(toks@, lo as int, hi as int, v@),
        r matches Err(ArgError::Malformed(at)) ==> malformed_at(toks@, lo as int, hi as int, at as int),
        r is Err ==> (r matches Err(ArgError::Malformed(_)) && !segments_read(toks@, segs@)),
        lo == hi ==> (r matches Ok(v) && v.len() == 0),
{
    proof {
        if lo == hi && segs.len() > 1 {
            assert(is_separator(toks@, lo as int, hi as int, segs[0].1 as int));
        }
    }
    let mut out: Vec<Arg> = Vec::new();
    let mut k: usize = 0;
    let mut stopped = false;
    while k < segs.len() && !stopped
        invariant
            segments_of(toks@, lo as int, hi as int, segs@),
            balanced(toks@, lo as int, hi as int),
            lo <= hi <= toks.len(),
            0 <= k <= segs.len(),
            out.len() == k,
            stopped ==> k + 1 == segs.len() && segs[k as int].0 == segs[k as int].1,
            forall|j: int| 0 <= j < k ==> #[trigger] out[j].at == segs[j].0 && out[j].end == segs[j].1,
            forall|j: int| 0 <= j < k ==> arg_matches(toks@, #[trigger] out[j]),
            forall|j: int| 0 <= j < k ==> segs[j].0 < #[trigger] segs[j].1,
            lo == hi ==> segs.len() == 1 && k == 0,
        decreases segs.len() - k - (if stopped { 1int } else { 0 }),
    {
        let (a, b) = segs[k];
        assert(lo <= segs[k as int].0 <= segs[k as int].1 <= hi);
        if a == b && k + 1 == segs.len() {
            stopped = true;
        } else {
            match parse_arg(toks, a, b) {
                Some(arg) => out.push(arg),
                None => {
                    assert(arg_of(toks@, a as int, b as int) is None);
                    proof {
                        reveal(segments_read);
                        assert(!segments_read(toks@, segs@));
                    }
                    if k > 0 {
                        assert(segs[k as int].0 == segs[k - 1].1 + 1);
                        assert(is_separator(toks@, lo as int, hi as int, segs[k - 1].1 as int));
                    }
                    if k + 1 < segs.len() {
                        assert(is_separator(toks@, lo as int, hi as int, segs[k as int].1 as int));
                    }
                    assert(malformed_at(toks@, lo as int, hi as int, a as int));
                    return Err(ArgError::Malformed(a));
                },
            }
            k = k + 1;
        }
    }
    proof {
        let n = segs.len() - 1;
        if out.len() == 0 {
            assert(segs[0].0 == lo);
            assert(n == 0);
        }
        if out.len() > 0 && stopped {
            let m = out.len() - 1;
            assert(segs[m + 1].0 == segs[m].1 + 1);
        }
    }
    Ok(out)
}

/// Parses the comma-separated argument list in `lo..hi`.
pub fn parse_args(toks: &Vec<Tok>, lo: usize, hi: usize) -> (r: Result<Vec<Arg>, ArgError>)
    requires
        lo <= hi <= toks.len(),
    ensures
        !balanced(toks@, lo as int, hi as int) <==> r == Err::<Vec<Arg>, ArgError>(ArgError::Unbalanced),
        r matches Ok(v) ==> args_of(toks@, lo as int, hi as int, v@),
        r matches Err(ArgError::Malformed(at)) ==> malformed_at(toks@, lo as int, hi as int, at as int),
        lo == hi ==> (r matches Ok(v) && v.len() == 0),
        balanced(toks@, lo as int, hi as int) && (exists|a: Seq<Arg>| #[trigger] args_of(toks@, lo as int, hi as int, a))
            ==> r is Ok,
        r matches Ok(v) ==> forall|a: Seq<Arg>| #[trigger] args_of(toks@, lo as int, hi as int, a) ==> args_agree(a, v@),
{
    let segs = match split_arguments(toks, lo, hi) {
        Some(s) => s,
        None => return Err(ArgError::Unbalanced),
    };
    let r = args_from_segments(toks, lo, hi, &segs);
    proof {
        if exists|a: Seq<Arg>| #[trigger] args_of(toks@, lo as int, hi as int, a) {
            let aw = choose|a: Seq<Arg>| #[trigger] args_of(toks@, lo as int, hi as int, a);
            lemma_arg_bounds(toks@, lo as int, hi as int, aw);
            lemma_segments_unique(toks@, lo as int, hi as int, segs@, arg_bounds(aw, lo as int, hi as int));
            assert forall|j: int| 0 <= j < segs.len() implies (segs[j].0 == segs[j].1 && j == segs.len() - 1)
                || #[trigger] arg_of(toks@, segs[j].0 as int, segs[j].1 as int) is Some by {
                if j < aw.len() {
                    assert(segs@[j] == (aw[j].at, aw[j].end));
                    assert(arg_matches(toks@, aw[j]));
                }
            }
            reveal(segments_read);
        }
        if r is Ok {
            let out = r->Ok_0;
            assert forall|a: Seq<Arg>| #[trigger] args_of(toks@, lo as int, hi as int, a) implies args_agree(a, out@) by {
                lemma_args_unique(toks@, lo as int, hi as int, a, out@);
            }
        }
    }
    r
}

/// The keys and values of an argument list, without positions.
pub open spec fn arg_views(a: Seq<Arg>) -> Seq<(Seq<char>, ArgValue)> {
    a.map_values(|x: Arg| (x.key@, x.value))
}

/// No key occurs twice.
pub open spec fn distinct_keys(v: Seq<(Seq<char>, ArgValue)>) -> bool {
    forall|i: int, j: int| 0 <= i < j < v.len() ==> (#[trigger] v[i]).0 != (#[trigger] v[j]).0
}

/// Agreeing argument lists have the same keys and values.
pub proof fn lemma_agree_views(a1: Seq<Arg>, a2: Seq<Arg>)
    requires
        args_agree(a1, a2),
    ensures
        arg_views(a1) == arg_views(a2),
{
    assert(arg_views(a1) =~= arg_views(a2));
}

} // verus!
