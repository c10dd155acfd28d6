use vstd::prelude::*;
use crate::tokens::Tok;

verus! {

/// Whether `s` spells exactly the word `w`.
pub fn word_is(s: &String, w: &str) -> (r: bool)
    ensures
        r == (s@ == w@),
{
    let a = s.as_str();
    let n = a.unicode_len();
    if n != w.unicode_len() {
        return false;
    }
    let mut i: usize = 0;
    while i < n
        invariant
            0 <= i <= n,
            n == s@.len(),
            n == w@.len(),
            a@ == s@,
            forall|j: int| 0 <= j < i ==> s@[j] == w@[j],
        decreases n - i,
    {
        if a.get_char(i) != w.get_char(i) {
            return false;
        }
        i = i + 1;
    }
    assert(s@ =~= w@);
    true
}

/// The token at `i` is the identifier `w`.
pub open spec fn ident_is(s: Seq<Tok>, i: int, w: Seq<char>) -> bool {
    0 <= i < s.len() && match s[i] {
        Tok::Ident(k) => k@ == w,
        _ => false,
    }
}

pub fn token_is_ident(toks: &Vec<Tok>, i: usize, w: &str) -> (r: bool)
    requires
        i < toks.len(),
    ensures
        r == ident_is(toks@, i as int, w@),
{
    match &toks[i] {
        Tok::Ident(k) => word_is(k, w),
        _ => false,
    }
}

pub open spec fn is_digit(c: char) -> bool {
    '0' <= c <= '9'
}

/// The value of a string of decimal digits.
pub open spec fn decimal_value(s: Seq<char>) -> int
    decreases s.len(),
{
    if s.len() == 0 {
        0
    } else {
        decimal_value(s.drop_last()) * 10 + (s.last() as int - '0' as int)
    }
}

pub open spec fn is_decimal(s: Seq<char>) -> bool {
    s.len() > 0 && forall|i: int| 0 <= i < s.len() ==> is_digit(#[trigger] s[i])
}

proof fn lemma_decimal_prefix(s: Seq<char>, n: int)
    requires
        0 <= n <= s.len(),
        forall|i: int| 0 <= i < s.len() ==> is_digit(#[trigger] s[i]),
    ensures
        0 <= decimal_value(s.subrange(0, n)) <= decimal_value(s),
    decreases s.len(),
{
    if s.len() > 0 {
        let t = s.drop_last();
        assert forall|i: int| 0 <= i < t.len() implies is_digit(#[trigger] t[i]) by {
            assert(t[i] == s[i]);
        }
        if n == s.len() {
            assert(s.subrange(0, n) =~= s);
            lemma_decimal_prefix(t, t.len() as int);
            assert(t.subrange(0, t.len() as int) =~= t);
        } else {
            lemma_decimal_prefix(t, n);
            assert(s.subrange(0, n) =~= t.subrange(0, n));
            assert(is_digit(s[s.len() - 1]));
        }
    }
}

/// Reads an unsigned decimal literal such as `42`.
pub fn parse_decimal(text: &String) -> (r: Option<i64>)
    ensures
        r.is_some() <==> is_decimal(text@) && decimal_value(text@) <= i64::MAX,
        r matches Some(v) ==> v == decimal_value(text@) && v >= 0,
{
    let a = text.as_str();
    let n = a.unicode_len();
    if n == 0 {
        return None;
    }
    let mut acc: i64 = 0;
    let mut i: usize = 0;
    while i < n
        invariant
            0 <= i <= n,
            n == text@.len(),
            a@ == text@,
            forall|j: int| 0 <= j < i ==> is_digit(#[trigger] text@[j]),
            acc == decimal_value(text@.subrange(0, i as int)),
            acc >= 0,
        decreases n - i,
    {
        let c = a.get_char(i);
        if !('0' <= c && c <= '9') {
            return None;
        }
        let d = (c as u32 - '0' as u32) as i64;
        assert(text@.subrange(0, i + 1).drop_last() =~= text@.subrange(0, i as int));
        if acc > (i64::MAX - d) / 10 {
            proof {
                assert(decimal_value(text@.subrange(0, i + 1)) > i64::MAX);
                let full = text@;
                if forall|j: int| 0 <= j < full.len() ==> is_digit(#[trigger] full[j]) {
                    lemma_decimal_prefix(full, i + 1);
                }
            }
            return None;
        }
        assert(acc * 10 + d <= i64::MAX) by (nonlinear_arith)
            requires
                acc <= (i64::MAX - d) / 10,
                0 <= d <= 9,
                acc >= 0,
        ;
        acc = acc * 10 + d;
        i = i + 1;
    }
    assert(text@.subrange(0, n as int) =~= text@);
    Some(acc)
}

/// An integer written as a literal, optionally preceded by a minus sign.
pub open spec fn int_of(s: Seq<Tok>, lo: int, hi: int) -> Option<int> {
    if 0 <= lo && hi <= s.len() && hi - lo == 1 {
        match s[lo] {
            Tok::Lit(t) => if is_decimal(t@) {
                Some(decimal_value(t@))
            } else {
                None
            },
            _ => None,
        }
    } else if 0 <= lo && hi <= s.len() && hi - lo == 2 && s[lo] == Tok::Punct('-') {
        match s[lo + 1] {
            Tok::Lit(t) => if is_decimal(t@) {
                Some(-decimal_value(t@))
            } else {
                None
            },
            _ => None,
        }
    } else {
        None
    }
}

pub open spec fn fits_i64(v: int) -> bool {
    -i64::MAX <= v <= i64::MAX
}

/// Reads the integer spanning `lo..hi`.
pub fn parse_int(toks: &Vec<Tok>, lo: usize, hi: usize) -> (r: Option<i64>)
    requires
        lo <= hi <= toks.len(),
    ensures
        r.is_some() <==> (int_of(toks@, lo as int, hi as int) matches Some(v) && fits_i64(v)),
        r matches Some(v) ==> int_of(toks@, lo as int, hi as int) == Some(v as int),
{
    if hi - lo == 1 {
        match &toks[lo] {
            Tok::Lit(t) => parse_decimal(t),
            _ => None,
        }
    } else if hi - lo == 2 && matches!(toks[lo], Tok::Punct('-')) {
        match &toks[lo + 1] {
            Tok::Lit(t) => match parse_decimal(t) {
                Some(v) => Some(-v),
                None => None,
            },
            _ => None,
        }
    } else {
        None
    }
}

/// A numeric literal kept as written, with its sign.
#[derive(Debug)]
pub struct Number {
    pub negative: bool,
    pub text: String,
}

/// A literal, optionally preceded by a minus sign: its sign and text.
pub open spec fn number_of(s: Seq<Tok>, lo: int, hi: int) -> Option<(bool, Seq<char>)> {
    if 0 <= lo && hi <= s.len() && hi - lo == 1 {
        match s[lo] {
            Tok::Lit(t) => Some((false, t@)),
            _ => None,
        }
    } else if 0 <= lo && hi <= s.len() && hi - lo == 2 && s[lo] == Tok::Punct('-') {
        match s[lo + 1] {
            Tok::Lit(t) => Some((true, t@)),
            _ => None,
        }
    } else {
        None
    }
}

pub open spec fn number_is(n: Number, v: Option<(bool, Seq<char>)>) -> bool {
    v == Some((n.negative, n.text@))
}

/// Reads the number spanning `lo..hi`.
pub fn parse_number(toks: &Vec<Tok>, lo: usize, hi: usize) -> (r: Option<Number>)
    requires
        lo <= hi <= toks.len(),
    ensures
        r.is_some() <==> number_of(toks@, lo as int, hi as int).is_some(),
        r matches Some(n) ==> number_is(n, number_of(toks@, lo as int, hi as int)),
{
    if hi - lo == 1 {
        match &toks[lo] {
            Tok::Lit(t) => Some(Number { negative: false, text: t.clone() }),
            _ => None,
        }
    } else if hi - lo == 2 && matches!(toks[lo], Tok::Punct('-')) {
        match &toks[lo + 1] {
            Tok::Lit(t) => Some(Number { negative: true, text: t.clone() }),
            _ => None,
        }
    } else {
        None
    }
}

} // verus!
