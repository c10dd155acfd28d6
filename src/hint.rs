use vstd::prelude::*;
use crate::attr::{Arg, ArgValue, ArgError, args_of, parse_args};
use crate::text::{Number, number_of, number_is, parse_number, int_of, fits_i64, parse_int, ident_is, token_is_ident};
use crate::tokens::{Tok, balanced, segments_of, split_arguments, lemma_segments_unique};

verus! {

/// The key of entry `n` of an enum label table: its explicit key, or one more
/// than the key before it (the first implicit key is 0).
pub open spec fn key_at(ks: Seq<Option<i64>>, n: int) -> int
    decreases n + 1,
{
    if n < 0 || n >= ks.len() {
        -1
    } else {
        match ks[n] {
            Some(v) => v as int,
            None => key_at(ks, n - 1) + 1,
        }
    }
}

/// Entry `n` fits in `i64` and its key is above the key before it.
pub open spec fn key_valid_at(ks: Seq<Option<i64>>, n: int) -> bool {
    &&& key_at(ks, n) <= i64::MAX
    &&& n > 0 ==> key_at(ks, n - 1) < key_at(ks, n)
}

pub open spec fn keys_valid(ks: Seq<Option<i64>>) -> bool {
    forall|n: int| 0 <= n < ks.len() ==> #[trigger] key_valid_at(ks, n)
}

/// Resolves the keys of an enum label table. Implicit keys continue the
/// sequence after the key before them. Fails with the index of the first
/// entry whose key does not strictly increase.
pub fn resolve_enum_keys(ks: &Vec<Option<i64>>) -> (r: Result<Vec<i64>, usize>)
    ensures
        r.is_ok() <==> keys_valid(ks@),
        r matches Ok(v) ==> v.len() == ks.len() && forall|k: int|
            0 <= k < v.len() ==> #[trigger] v[k] as int == key_at(ks@, k),
        r matches Err(n) ==> n < ks.len() && !key_valid_at(ks@, n as int) && forall|m: int|
            0 <= m < n ==> #[trigger] key_valid_at(ks@, m),
{
    let mut out: Vec<i64> = Vec::new();
    let mut i: usize = 0;
    while i < ks.len()
        invariant
            0 <= i <= ks.len(),
            out.len() == i,
            forall|k: int| 0 <= k < i ==> #[trigger] out[k] as int == key_at(ks@, k),
            forall|m: int| 0 <= m < i ==> #[trigger] key_valid_at(ks@, m),
        decreases ks.len() - i,
    {
        let key: i64 = match ks[i] {
            Some(v) => v,
            None => {
                if i == 0 {
                    0
                } else {
                    let prev = out[i - 1];
                    if prev == i64::MAX {
                        assert(!key_valid_at(ks@, i as int));
                        return Err(i);
                    }
                    prev + 1
                }
            },
        };
        proof {
            if i == 0 && ks@[0] is None {
                assert(key_at(ks@, -1) == -1);
            }
            if i > 0 {
                assert(out[i - 1] as int == key_at(ks@, i - 1));
            }
            assert(key as int == key_at(ks@, i as int));
        }
        if i > 0 && out[i - 1] >= key {
            assert(!key_valid_at(ks@, i as int));
            return Err(i);
        }
        out.push(key);
        assert(key_valid_at(ks@, i as int));
        i = i + 1;
    }
    Ok(out)
}

/// One entry of a label table: its name and, if written, its key.
#[derive(Debug)]
pub struct Label {
    pub name: String,
    pub key: Option<i64>,
}

/// The entry that argument `a` writes: `Name` or `Name = integer`.
pub open spec fn label_of(s: Seq<Tok>, a: Arg) -> Option<Option<int>> {
    match a.value {
        ArgValue::Flag => Some(None),
        ArgValue::Assign(lo, hi) => match int_of(s, lo as int, hi as int) {
            Some(v) => if fits_i64(v) {
                Some(Some(v))
            } else {
                None
            },
            None => None,
        },
        ArgValue::Call(_, _) => None,
    }
}

pub open spec fn label_matches(s: Seq<Tok>, a: Arg, l: Label) -> bool {
    &&& l.name@ == a.key@
    &&& label_of(s, a) == Some(
        match l.key {
            Some(v) => Some(v as int),
            None => None::<int>,
        },
    )
}

/// The labels `v` are those that the arguments `a` write, in order.
pub open spec fn labels_of(s: Seq<Tok>, a: Seq<Arg>, v: Seq<Label>) -> bool {
    &&& v.len() == a.len()
    &&& forall|k: int| 0 <= k < v.len() ==> label_matches(s, #[trigger] a[k], v[k])
}

/// Every argument writes a label.
pub open spec fn labels_ok(s: Seq<Tok>, a: Seq<Arg>) -> bool {
    forall|k: int| 0 <= k < a.len() ==> label_of(s, #[trigger] a[k]) is Some
}

/// Reads the labels that the arguments write, or the offset of the first
/// argument that writes none.
fn labels_from_args(toks: &Vec<Tok>, lo: usize, hi: usize, args: &Vec<Arg>) -> (r: Result<Vec<Label>, usize>)
    requires
        lo <= hi <= toks.len(),
        args_of(toks@, lo as int, hi as int, args@),
    ensures
        r matches Ok(v) ==> labels_of(toks@, args@, v@) && labels_ok(toks@, args@),
        r is Err ==> !labels_ok(toks@, args@),
{
    let mut out: Vec<Label> = Vec::new();
    let mut i: usize = 0;
    while i < args.len()
        invariant
            0 <= i <= args.len(),
            out.len() == i,
            lo <= hi <= toks.len(),
            args_of(toks@, lo as int, hi as int, args@),
            forall|k: int| 0 <= k < i ==> label_matches(toks@, #[trigger] args@[k], out@[k]),
        decreases args.len() - i,
    {
        let a = &args[i];
        assert(lo <= args@[i as int].at < args@[i as int].end <= hi);
        let key = match a.value {
            ArgValue::Flag => None,
            ArgValue::Assign(x, y) => {
                assert(crate::attr::arg_matches(toks@, args@[i as int]));
                match parse_int(toks, x, y) {
                    Some(v) => Some(v),
                    None => {
                        assert(label_of(toks@, args@[i as int]) is None);
                        return Err(x);
                    },
                }
            },
            ArgValue::Call(x, _) => {
                assert(label_of(toks@, args@[i as int]) is None);
                return Err(x);
            },
        };
        out.push(Label { name: a.key.clone(), key });
        i = i + 1;
    }
    assert(labels_of(toks@, args@, out@));
    assert(labels_ok(toks@, args@));
    Ok(out)
}

/// Parses the label table `A, B = 2, ...` in `lo..hi`. The error is the
/// offset of the offending part.
pub fn parse_labels(toks: &Vec<Tok>, lo: usize, hi: usize) -> (r: Result<Vec<Label>, usize>)
    requires
        lo <= hi <= toks.len(),
    ensures
        r matches Ok(v) ==> exists|a: Seq<Arg>| args_of(toks@, lo as int, hi as int, a) && labels_of(toks@, a, v@),
        !balanced(toks@, lo as int, hi as int) ==> r is Err,
        r is Ok <==> balanced(toks@, lo as int, hi as int) && exists|a: Seq<Arg>|
            #[trigger] args_of(toks@, lo as int, hi as int, a) && labels_ok(toks@, a),
{
    let args = match parse_args(toks, lo, hi) {
        Ok(a) => a,
        Err(ArgError::Unbalanced) => return Err(lo),
        Err(ArgError::Malformed(at)) => return Err(at),
    };
    let r = labels_from_args(toks, lo, hi, &args);
    proof {
        if r is Err {
            assert forall|a: Seq<Arg>| #[trigger] args_of(toks@, lo as int, hi as int, a) implies !labels_ok(toks@, a) by {
                assert(crate::attr::args_agree(a, args@));
                if labels_ok(toks@, a) {
                    assert forall|k: int| 0 <= k < args.len() implies label_of(toks@, #[trigger] args@[k]) is Some by {
                        assert(label_of(toks@, a[k]) is Some);
                        assert(a[k].value == args@[k].value);
                    }
                }
            }
        }
    }
    r
}

/// An open end or display option of a range hint.
#[derive(Clone, Copy, PartialEq, Eq, Structural, Debug)]
pub enum RangeFlag {
    OrGreater,
    OrLess,
    Exp,
    Radians,
    Degrees,
    HideSlider,
}

/// The range option that the segment `lo..hi` names, if any.
pub open spec fn range_flag_of(s: Seq<Tok>, lo: int, hi: int) -> Option<RangeFlag> {
    if hi - lo != 1 {
        None
    } else if ident_is(s, lo, "or_greater"@) {
        Some(RangeFlag::OrGreater)
    } else if ident_is(s, lo, "or_less"@) {
        Some(RangeFlag::OrLess)
    } else if ident_is(s, lo, "exp"@) {
        Some(RangeFlag::Exp)
    } else if ident_is(s, lo, "radians"@) {
        Some(RangeFlag::Radians)
    } else if ident_is(s, lo, "degrees"@) {
        Some(RangeFlag::Degrees)
    } else if ident_is(s, lo, "hide_slider"@) {
        Some(RangeFlag::HideSlider)
    } else {
        None
    }
}

fn range_flag(toks: &Vec<Tok>, lo: usize, hi: usize) -> (r: Option<RangeFlag>)
    requires
        lo <= hi <= toks.len(),
    ensures
        r == range_flag_of(toks@, lo as int, hi as int),
{
    if hi - lo != 1 {
        None
    } else if token_is_ident(toks, lo, "or_greater") {
        Some(RangeFlag::OrGreater)
    } else if token_is_ident(toks, lo, "or_less") {
        Some(RangeFlag::OrLess)
    } else if token_is_ident(toks, lo, "exp") {
        Some(RangeFlag::Exp)
    } else if token_is_ident(toks, lo, "radians") {
        Some(RangeFlag::Radians)
    } else if token_is_ident(toks, lo, "degrees") {
        Some(RangeFlag::Degrees)
    } else if token_is_ident(toks, lo, "hide_slider") {
        Some(RangeFlag::HideSlider)
    } else {
        None
    }
}

/// A numeric range hint: bounds, optional step, and options.
#[derive(Debug)]
pub struct RangeHint {
    pub min: Number,
    pub max: Number,
    pub step: Option<Number>,
    pub or_greater: bool,
    pub or_less: bool,
    pub exp: bool,
    pub radians: bool,
    pub degrees: bool,
    pub hide_slider: bool,
}

pub open spec fn seg_number(s: Seq<Tok>, v: Seq<(usize, usize)>, k: int) -> Option<(bool, Seq<char>)> {
    number_of(s, v[k].0 as int, v[k].1 as int)
}

pub open spec fn seg_flag(s: Seq<Tok>, v: Seq<(usize, usize)>, k: int) -> Option<RangeFlag> {
    range_flag_of(s, v[k].0 as int, v[k].1 as int)
}

/// `min, max`, then an optional step, then options.
pub open spec fn range_valid(s: Seq<Tok>, v: Seq<(usize, usize)>) -> bool {
    &&& v.len() >= 2
    &&& seg_number(s, v, 0) is Some
    &&& seg_number(s, v, 1) is Some
    &&& forall|k: int|
        2 <= k < v.len() ==> #[trigger] seg_flag(s, v, k) is Some || (k == 2 && seg_number(s, v, 2) is Some)
}

pub open spec fn has_flag(s: Seq<Tok>, v: Seq<(usize, usize)>, f: RangeFlag) -> bool {
    exists|k: int| 2 <= k < v.len() && #[trigger] seg_flag(s, v, k) == Some(f)
}

/// The hint `r` is what the segments `v` write.
pub open spec fn range_matches(s: Seq<Tok>, v: Seq<(usize, usize)>, r: RangeHint) -> bool {
    &&& number_is(r.min, seg_number(s, v, 0))
    &&& number_is(r.max, seg_number(s, v, 1))
    &&& r.step is Some <==> (v.len() > 2 && seg_number(s, v, 2) is Some)
    &&& r.step matches Some(st) ==> number_is(st, seg_number(s, v, 2))
    &&& r.or_greater == has_flag(s, v, RangeFlag::OrGreater)
    &&& r.or_less == has_flag(s, v, RangeFlag::OrLess)
    &&& r.exp == has_flag(s, v, RangeFlag::Exp)
    &&& r.radians == has_flag(s, v, RangeFlag::Radians)
    &&& r.degrees == has_flag(s, v, RangeFlag::Degrees)
    &&& r.hide_slider == has_flag(s, v, RangeFlag::HideSlider)
}

fn segments_have_flag(toks: &Vec<Tok>, lo: usize, hi: usize, segs: &Vec<(usize, usize)>, f: RangeFlag) -> (r: bool)
    requires
        segments_of(toks@, lo as int, hi as int, segs@),
        hi <= toks.len(),
    ensures
        r == has_flag(toks@, segs@, f),
{
    let mut k: usize = 2;
    while k < segs.len()
        invariant
            segments_of(toks@, lo as int, hi as int, segs@),
            hi <= toks.len(),
            2 <= k,
            forall|j: int| 2 <= j < k && j < segs.len() ==> #[trigger] seg_flag(toks@, segs@, j) != Some(f),
        decreases segs.len() - k,
    {
        let (a, b) = segs[k];
        assert(segs[k as int].0 <= segs[k as int].1 <= hi);
        if range_flag(toks, a, b) == Some(f) {
            assert(seg_flag(toks@, segs@, k as int) == Some(f));
            return true;
        }
        k = k + 1;
    }
    false
}

/// Expands the range shorthand written in `lo..hi` (inside its parentheses):
/// `min, max`, an optional step, then any of `or_greater`, `or_less`, `exp`,
/// `radians`, `degrees`, `hide_slider`.
#[verifier::rlimit(40)]
pub fn parse_range(toks: &Vec<Tok>, lo: usize, hi: usize) -> (r: Option<RangeHint>)
    requires
        lo <= hi <= toks.len(),
    ensures
        r.is_some() <==> balanced(toks@, lo as int, hi as int) && exists|v: Seq<(usize, usize)>|
            segments_of(toks@, lo as int, hi as int, v) && range_valid(toks@, v),
        r matches Some(h) ==> forall|v: Seq<(usize, usize)>|
            segments_of(toks@, lo as int, hi as int, v) ==> range_matches(toks@, v, h),
{
    let segs = match split_arguments(toks, lo, hi) {
        Some(s) => s,
        None => return None,
    };
    proof {
        assert forall|v: Seq<(usize, usize)>| segments_of(toks@, lo as int, hi as int, v) implies v == segs@ by {
            lemma_segments_unique(toks@, lo as int, hi as int, v, segs@);
        }
    }
    if segs.len() < 2 {
        return None;
    }
    let min = match parse_number(toks, segs[0].0, segs[0].1) {
        Some(n) => n,
        None => return None,
    };
    let max = match parse_number(toks, segs[1].0, segs[1].1) {
        Some(n) => n,
        None => return None,
    };
    let mut step: Option<Number> = None;
    let mut k: usize = 2;
    while k < segs.len()
        invariant
            segments_of(toks@, lo as int, hi as int, segs@),
            balanced(toks@, lo as int, hi as int),
            forall|v: Seq<(usize, usize)>| segments_of(toks@, lo as int, hi as int, v) ==> v == segs@,
            lo <= hi <= toks.len(),
            2 <= k <= segs.len(),
            step is Some <==> (k > 2 && seg_number(toks@, segs@, 2) is Some),
            step matches Some(st) ==> number_is(st, seg_number(toks@, segs@, 2)),
            forall|j: int|
                2 <= j < k ==> #[trigger] seg_flag(toks@, segs@, j) is Some || (j == 2 && seg_number(toks@, segs@, 2) is Some),
        decreases segs.len() - k,
    {
        let (a, b) = segs[k];
        assert(lo <= segs[k as int].0 <= segs[k as int].1 <= hi);
        if range_flag(toks, a, b).is_none() {
            if k == 2 {
                match parse_number(toks, a, b) {
                    Some(n) => {
                        step = Some(n);
                    },
                    None => {
                        assert(seg_flag(toks@, segs@, k as int) is None);
                        assert(!range_valid(toks@, segs@));
                        return None;
                    },
                }
            } else {
                assert(seg_flag(toks@, segs@, k as int) is None);
                assert(!range_valid(toks@, segs@));
                return None;
            }
        } else if k == 2 {
            assert(seg_flag(toks@, segs@, 2) is Some);
            assert(seg_number(toks@, segs@, 2) is None) by {
                assert(ident_is(toks@, a as int, "or_greater"@) || ident_is(toks@, a as int, "or_less"@) || ident_is(toks@, a as int, "exp"@) || ident_is(toks@, a as int, "radians"@) || ident_is(toks@, a as int, "degrees"@) || ident_is(toks@, a as int, "hide_slider"@));
            }
        }
        k = k + 1;
    }
    assert(range_valid(toks@, segs@));
    Some(RangeHint {
        min,
        max,
        step,
        or_greater: segments_have_flag(toks, lo, hi, &segs, RangeFlag::OrGreater),
        or_less: segments_have_flag(toks, lo, hi, &segs, RangeFlag::OrLess),
        exp: segments_have_flag(toks, lo, hi, &segs, RangeFlag::Exp),
        radians: segments_have_flag(toks, lo, hi, &segs, RangeFlag::Radians),
        degrees: segments_have_flag(toks, lo, hi, &segs, RangeFlag::Degrees),
        hide_slider: segments_have_flag(toks, lo, hi, &segs, RangeFlag::HideSlider),
    })
}

/// Enum keys resume after an explicit key: an entry without a key gets one
/// more than the entry before it, and an entry with a key gets that key.
pub proof fn law_enum_keys_resume(ks: Seq<Option<i64>>, n: int)
    requires
        0 <= n < ks.len(),
    ensures
        ks[n] is None && n > 0 ==> key_at(ks, n) == key_at(ks, n - 1) + 1,
        ks[n] is None && n == 0 ==> key_at(ks, n) == 0,
        ks[n] matches Some(v) ==> key_at(ks, n) == v,
{
    assert(key_at(ks, -1) == -1);
}

/// A range written as two bounds and `or_greater` expands to those bounds,
/// no step, an open upper end and a closed lower end.
pub proof fn law_range_open_upper(s: Seq<Tok>, v: Seq<(usize, usize)>, r: RangeHint)
    requires
        v.len() == 3,
        seg_flag(s, v, 2) == Some(RangeFlag::OrGreater),
        range_matches(s, v, r),
    ensures
        r.or_greater,
        !r.or_less,
        !r.exp && !r.radians && !r.degrees && !r.hide_slider,
        r.step is None,
        number_is(r.min, seg_number(s, v, 0)),
        number_is(r.max, seg_number(s, v, 1)),
{
    assert(has_flag(s, v, RangeFlag::OrGreater));
    let lo = v[2].0 as int;
    assert(ident_is(s, lo, "or_greater"@));
    assert(seg_number(s, v, 2) is None);
}

} // verus!
