use vstd::prelude::*;
use crate::attr::{Arg, ArgValue, ArgError, arg_of, args_of, arg_matches, parse_args};
use crate::diag::ErrorKind;
use crate::hint::{Label, RangeHint, key_at, labels_of, parse_labels, parse_range, range_matches, resolve_enum_keys};
use crate::text::word_is;
use crate::tokens::{Tok, Delim, balanced, depth, segments_of};

verus! {

/// The canonical hint kinds that export shorthands expand to.
#[derive(Clone, Copy, PartialEq, Eq, Structural, Debug)]
pub enum HintKind {
    Range,
    Enum,
    Flags,
    File,
    GlobalFile,
    Dir,
    GlobalDir,
    Multiline,
    Placeholder,
    ExpEasing,
    ColorNoAlpha,
    Flags2dPhysics,
    Flags2dRender,
    Flags2dNavigation,
    Flags3dPhysics,
    Flags3dRender,
    Flags3dNavigation,
}

/// The fixed table from export shorthand names to hint kinds.
pub open spec fn shorthand_of(w: Seq<char>) -> Option<HintKind> {
    if w == "range"@ {
        Some(HintKind::Range)
    } else if w == "enum"@ {
        Some(HintKind::Enum)
    } else if w == "flags"@ {
        Some(HintKind::Flags)
    } else if w == "file"@ {
        Some(HintKind::File)
    } else if w == "global_file"@ {
        Some(HintKind::GlobalFile)
    } else if w == "dir"@ {
        Some(HintKind::Dir)
    } else if w == "global_dir"@ {
        Some(HintKind::GlobalDir)
    } else if w == "multiline"@ {
        Some(HintKind::Multiline)
    } else if w == "placeholder"@ {
        Some(HintKind::Placeholder)
    } else if w == "exp_easing"@ {
        Some(HintKind::ExpEasing)
    } else if w == "color_no_alpha"@ {
        Some(HintKind::ColorNoAlpha)
    } else if w == "flags_2d_physics"@ {
        Some(HintKind::Flags2dPhysics)
    } else if w == "flags_2d_render"@ {
        Some(HintKind::Flags2dRender)
    } else if w == "flags_2d_navigation"@ {
        Some(HintKind::Flags2dNavigation)
    } else if w == "flags_3d_physics"@ {
        Some(HintKind::Flags3dPhysics)
    } else if w == "flags_3d_render"@ {
        Some(HintKind::Flags3dRender)
    } else if w == "flags_3d_navigation"@ {
        Some(HintKind::Flags3dNavigation)
    } else {
        None
    }
}

/// Looks a shorthand name up in the fixed table.
pub fn shorthand(w: &String) -> (r: Option<HintKind>)
    ensures
        r == shorthand_of(w@),
{
    if word_is(w, "range") {
        Some(HintKind::Range)
    } else if word_is(w, "enum") {
        Some(HintKind::Enum)
    } else if word_is(w, "flags") {
        Some(HintKind::Flags)
    } else if word_is(w, "file") {
        Some(HintKind::File)
    } else if word_is(w, "global_file") {
        Some(HintKind::GlobalFile)
    } else if word_is(w, "dir") {
        Some(HintKind::Dir)
    } else if word_is(w, "global_dir") {
        Some(HintKind::GlobalDir)
    } else if word_is(w, "multiline") {
        Some(HintKind::Multiline)
    } else if word_is(w, "placeholder") {
        Some(HintKind::Placeholder)
    } else if word_is(w, "exp_easing") {
        Some(HintKind::ExpEasing)
    } else if word_is(w, "color_no_alpha") {
        Some(HintKind::ColorNoAlpha)
    } else if word_is(w, "flags_2d_physics") {
        Some(HintKind::Flags2dPhysics)
    } else if word_is(w, "flags_2d_render") {
        Some(HintKind::Flags2dRender)
    } else if word_is(w, "flags_2d_navigation") {
        Some(HintKind::Flags2dNavigation)
    } else if word_is(w, "flags_3d_physics") {
        Some(HintKind::Flags3dPhysics)
    } else if word_is(w, "flags_3d_render") {
        Some(HintKind::Flags3dRender)
    } else if word_is(w, "flags_3d_navigation") {
        Some(HintKind::Flags3dNavigation)
    } else {
        None
    }
}

/// Kinds written as a bare key, without parameters.
pub open spec fn is_plain_kind(k: HintKind) -> bool {
    !(k is Range || k is Enum || k is Flags || k is File || k is GlobalFile || k is Dir || k is GlobalDir
        || k is Placeholder)
}

/// One resolved entry of an enum hint.
#[derive(Debug)]
pub struct EnumEntry {
    pub name: String,
    pub key: i64,
}

/// A resolved export directive.
#[derive(Debug)]
pub enum ExportHint {
    /// Bare `export`: the hint comes from the field's type.
    Inferred,
    Range(RangeHint),
    Enum(Vec<EnumEntry>),
    Flags(Vec<Label>),
    File { global: bool, filter: Option<String> },
    Dir { global: bool },
    Placeholder(String),
    /// A kind without parameters.
    Plain(HintKind),
}

/// The tokens inside a parenthesised value spanning `x..y`.
pub open spec fn paren_inner(s: Seq<Tok>, x: int, y: int) -> Option<(int, int)> {
    if 0 <= x && y <= s.len() && y - x >= 2 && s[x] == Tok::Open(Delim::Paren) && s[y - 1] == Tok::Close(
        Delim::Paren,
    ) {
        Some((x + 1, y - 1))
    } else {
        None
    }
}

/// The text of the single literal spanning `x..y`.
pub open spec fn lit_of(s: Seq<Tok>, x: int, y: int) -> Option<Seq<char>> {
    if 0 <= x && y <= s.len() && y - x == 1 {
        match s[x] {
            Tok::Lit(t) => Some(t@),
            _ => None,
        }
    } else {
        None
    }
}

pub open spec fn label_keys(ls: Seq<Label>) -> Seq<Option<i64>> {
    ls.map_values(|l: Label| l.key)
}

/// The enum entries `es` are the labels `ls` with their keys resolved.
pub open spec fn enum_entries_of(ls: Seq<Label>, es: Seq<EnumEntry>) -> bool {
    &&& es.len() == ls.len()
    &&& forall|k: int|
        0 <= k < es.len() ==> (#[trigger] es[k]).name@ == ls[k].name@ && es[k].key as int == key_at(
            label_keys(ls),
            k,
        )
}

/// The parenthesised label table of argument `a`, read as `ls`.
pub open spec fn table_of(s: Seq<Tok>, a: Arg, ls: Seq<Label>) -> bool {
    match a.value {
        ArgValue::Assign(x, y) => match paren_inner(s, x as int, y as int) {
            Some((p, q)) => balanced(s, p, q) && exists|args: Seq<Arg>| args_of(s, p, q, args) && labels_of(s, args, ls),
            None => false,
        },
        _ => false,
    }
}

/// The hint `h` is what argument `a` writes.
pub open spec fn export_matches(s: Seq<Tok>, a: Arg, h: ExportHint) -> bool {
    match h {
        ExportHint::Inferred => false,
        ExportHint::Range(r) => shorthand_of(a.key@) == Some(HintKind::Range) && match a.value {
            ArgValue::Assign(x, y) => match paren_inner(s, x as int, y as int) {
                Some((p, q)) => (forall|v: Seq<(usize, usize)>|
                    segments_of(s, p, q, v) ==> range_matches(s, v, r)) && balanced(s, p, q) && exists|v: Seq<
                    (usize, usize),
                >| segments_of(s, p, q, v) && crate::hint::range_valid(s, v),
                None => false,
            },
            _ => false,
        },
        ExportHint::Enum(es) => shorthand_of(a.key@) == Some(HintKind::Enum) && exists|ls: Seq<Label>|
            table_of(s, a, ls) && enum_entries_of(ls, es@) && crate::hint::keys_valid(label_keys(ls)),
        ExportHint::Flags(ls) => shorthand_of(a.key@) == Some(HintKind::Flags) && table_of(s, a, ls@),
        ExportHint::File { global, filter } => {
            &&& shorthand_of(a.key@) == Some(if global {
                HintKind::GlobalFile
            } else {
                HintKind::File
            })
            &&& match a.value {
                ArgValue::Flag => filter is None,
                ArgValue::Assign(x, y) => filter matches Some(f) && lit_of(s, x as int, y as int) == Some(f@),
                _ => false,
            }
        },
        ExportHint::Dir { global } => a.value is Flag && shorthand_of(a.key@) == Some(
            if global {
                HintKind::GlobalDir
            } else {
                HintKind::Dir
            },
        ),
        ExportHint::Placeholder(t) => shorthand_of(a.key@) == Some(HintKind::Placeholder) && match a.value {
            ArgValue::Assign(x, y) => lit_of(s, x as int, y as int) == Some(t@),
            _ => false,
        },
        ExportHint::Plain(k) => a.value is Flag && shorthand_of(a.key@) == Some(k) && is_plain_kind(k),
    }
}

fn paren_value(toks: &Vec<Tok>, x: usize, y: usize) -> (r: Option<(usize, usize)>)
    requires
        x <= y <= toks.len(),
    ensures
        r matches Some((p, q)) ==> paren_inner(toks@, x as int, y as int) == Some((p as int, q as int)),
        r is None ==> paren_inner(toks@, x as int, y as int) is None,
{
    if y - x >= 2 && matches!(toks[x], Tok::Open(Delim::Paren)) && matches!(toks[y - 1], Tok::Close(Delim::Paren)) {
        Some((x + 1, y - 1))
    } else {
        None
    }
}

fn lit_value(toks: &Vec<Tok>, x: usize, y: usize) -> (r: Option<String>)
    requires
        x <= y <= toks.len(),
    ensures
        r matches Some(t) ==> lit_of(toks@, x as int, y as int) == Some(t@),
        r is None ==> lit_of(toks@, x as int, y as int) is None,
{
    if y - x == 1 {
        match &toks[x] {
            Tok::Lit(t) => Some(t.clone()),
            _ => None,
        }
    } else {
        None
    }
}

/// Two readings of one label table have the same keys.
proof fn lemma_label_keys_agree(s: Seq<Tok>, a1: Seq<Arg>, a2: Seq<Arg>, l1: Seq<Label>, l2: Seq<Label>)
    requires
        crate::attr::args_agree(a1, a2),
        labels_of(s, a1, l1),
        labels_of(s, a2, l2),
    ensures
        label_keys(l1) == label_keys(l2),
{
    assert forall|k: int| 0 <= k < l1.len() implies #[trigger] label_keys(l1)[k] == label_keys(l2)[k] by {
        assert(a1[k].value == a2[k].value);
        assert(crate::hint::label_matches(s, a1[k], l1[k]));
        assert(crate::hint::label_matches(s, a2[k], l2[k]));
        assert(crate::hint::label_of(s, a1[k]) == crate::hint::label_of(s, a2[k]));
    }
    assert(label_keys(l1) =~= label_keys(l2));
}

/// Reads the label table of argument `a`, or the offset at which it fails.
fn table(toks: &Vec<Tok>, a: &Arg) -> (r: Result<Vec<Label>, usize>)
    requires
        arg_matches(toks@, *a),
        a.end <= toks.len(),
    ensures
        r matches Ok(ls) ==> table_of(toks@, *a, ls@),
        (exists|ls: Seq<Label>| #[trigger] table_of(toks@, *a, ls)) ==> r is Ok,
        r matches Ok(ls) ==> forall|l2: Seq<Label>| #[trigger] table_of(toks@, *a, l2) ==> label_keys(l2) == label_keys(ls@),
{
    match a.value {
        ArgValue::Assign(x, y) => match paren_value(toks, x, y) {
            Some((p, q)) => {
                let r = parse_labels(toks, p, q);
                proof {
                    if exists|ls: Seq<Label>| #[trigger] table_of(toks@, *a, ls) {
                        let ls = choose|ls: Seq<Label>| #[trigger] table_of(toks@, *a, ls);
                        let aw = choose|args: Seq<Arg>| args_of(toks@, p as int, q as int, args) && labels_of(toks@, args, ls);
                        assert(crate::hint::labels_ok(toks@, aw)) by {
                            assert forall|k: int| 0 <= k < aw.len() implies crate::hint::label_of(toks@, #[trigger] aw[k]) is Some by {
                                assert(crate::hint::label_matches(toks@, aw[k], ls[k]));
                            }
                        }
                    }
                    if r is Ok {
                        let v = r->Ok_0;
                        let a1 = choose|args: Seq<Arg>| args_of(toks@, p as int, q as int, args) && labels_of(toks@, args, v@);
                        assert forall|l2: Seq<Label>| #[trigger] table_of(toks@, *a, l2) implies label_keys(l2) == label_keys(v@) by {
                            let a2 = choose|args: Seq<Arg>| args_of(toks@, p as int, q as int, args) && labels_of(toks@, args, l2);
                            crate::attr::lemma_args_unique(toks@, p as int, q as int, a2, a1);
                            lemma_label_keys_agree(toks@, a2, a1, l2, v@);
                        }
                    }
                }
                r
            },
            None => Err(x),
        },
        _ => Err(a.at),
    }
}

/// Resolves the labels of an enum table to entries with their keys.
fn enum_entries(ls: &Vec<Label>) -> (r: Option<Vec<EnumEntry>>)
    ensures
        r.is_some() <==> crate::hint::keys_valid(label_keys(ls@)),
        r matches Some(es) ==> enum_entries_of(ls@, es@),
{
    let mut ks: Vec<Option<i64>> = Vec::new();
    let mut i: usize = 0;
    while i < ls.len()
        invariant
            0 <= i <= ls.len(),
            ks@ == label_keys(ls@).subrange(0, i as int),
        decreases ls.len() - i,
    {
        ks.push(ls[i].key);
        assert(ks@ =~= label_keys(ls@).subrange(0, i + 1));
        i = i + 1;
    }
    assert(ks@ =~= label_keys(ls@));
    let keys = match resolve_enum_keys(&ks) {
        Ok(v) => v,
        Err(_) => return None,
    };
    let mut es: Vec<EnumEntry> = Vec::new();
    let mut j: usize = 0;
    while j < ls.len()
        invariant
            0 <= j <= ls.len(),
            keys.len() == ls.len(),
            ks@ == label_keys(ls@),
            forall|k: int| 0 <= k < keys.len() ==> #[trigger] keys[k] as int == key_at(ks@, k),
            es.len() == j,
            forall|k: int|
                0 <= k < j ==> (#[trigger] es[k]).name@ == ls[k].name@ && es[k].key as int == key_at(
                    label_keys(ls@),
                    k,
                ),
        decreases ls.len() - j,
    {
        es.push(EnumEntry { name: ls[j].name.clone(), key: keys[j] });
        j = j + 1;
    }
    Some(es)
}

/// The kind that a lone shorthand name spanning `lo..hi` names.
pub open spec fn bare_shorthand(s: Seq<Tok>, lo: int, hi: int) -> Option<HintKind> {
    if 0 <= lo && hi == lo + 1 && hi <= s.len() {
        match s[lo] {
            Tok::Ident(k) => shorthand_of(k@),
            _ => None,
        }
    } else {
        None
    }
}

/// The export attribute arguments `lo..hi` resolve to `h`.
pub open spec fn export_gives(s: Seq<Tok>, lo: int, hi: int, h: ExportHint) -> bool {
    exists|a: Seq<Arg>|
        #[trigger] export_args(s, lo, hi, a) && if h is Inferred {
            a.len() == 0
        } else {
            a.len() == 1 && export_matches(s, a[0], h)
        }
}

/// The argument list `a` of an export attribute spanning `lo..hi`.
pub open spec fn export_args(s: Seq<Tok>, lo: int, hi: int, a: Seq<Arg>) -> bool {
    args_of(s, lo, hi, a)
}

/// Resolves the export attribute whose arguments span `lo..hi`: nothing (the
/// hint is inferred from the field's type), or exactly one shorthand from the
/// fixed table. Errors carry the offset of the offending token.
pub fn resolve_export(toks: &Vec<Tok>, lo: usize, hi: usize) -> (r: Result<ExportHint, (usize, ErrorKind)>)
    requires
        lo <= hi <= toks.len(),
    ensures
        !balanced(toks@, lo as int, hi as int) ==> r == Err::<ExportHint, (usize, ErrorKind)>(
            (lo, ErrorKind::UnbalancedBrackets),
        ),
        r matches Ok(h) ==> export_gives(toks@, lo as int, hi as int, h),
        r matches Err((_, ErrorKind::DuplicateDirective)) ==> exists|a: Seq<Arg>|
            #[trigger] export_args(toks@, lo as int, hi as int, a) && a.len() > 1,
        r matches Err((_, ErrorKind::UnknownShorthand)) ==> exists|a: Seq<Arg>|
            #[trigger] export_args(toks@, lo as int, hi as int, a) && a.len() == 1 && shorthand_of(a[0].key@) is None,
        r matches Err((at, ErrorKind::MalformedArgument)) ==> balanced(toks@, lo as int, hi as int)
            && crate::attr::malformed_at(toks@, lo as int, hi as int, at as int),
        r matches Err((_, ErrorKind::EnumKeysNotIncreasing)) ==> exists|a: Seq<Arg>, ls: Seq<Label>|
            #[trigger] export_args(toks@, lo as int, hi as int, a) && a.len() == 1 && shorthand_of(a[0].key@) == Some(
                HintKind::Enum,
            ) && #[trigger] table_of(toks@, a[0], ls) && !crate::hint::keys_valid(label_keys(ls)),
        lo == hi ==> r matches Ok(ExportHint::Inferred),
        balanced(toks@, lo as int, hi as int) && (exists|h: ExportHint| #[trigger] export_gives(toks@, lo as int, hi as int, h))
            ==> r is Ok,
        bare_shorthand(toks@, lo as int, hi as int) matches Some(k) ==> (k is Range || k is Enum || k is Flags
            || k is Placeholder || r is Ok),
{
    proof {
        if bare_shorthand(toks@, lo as int, hi as int) is Some {
            assert(depth(toks@, lo as int, lo as int) == 0);
            assert(depth(toks@, lo as int, hi as int) == 0);
            assert(balanced(toks@, lo as int, hi as int));
        }
    }
    let args = match parse_args(toks, lo, hi) {
        Ok(a) => a,
        Err(ArgError::Unbalanced) => return Err((lo, ErrorKind::UnbalancedBrackets)),
        Err(ArgError::Malformed(at)) => {
            assert(bare_shorthand(toks@, lo as int, hi as int) is Some ==> arg_of(toks@, lo as int, hi as int) is Some);
            return Err((at, ErrorKind::MalformedArgument));
        },
    };
    assert(export_args(toks@, lo as int, hi as int, args@));
    if lo == hi {
        assert(args.len() == 0 || args@[0].at < args@[0].end <= hi);
    }
    if args.len() == 0 {
        return Ok(ExportHint::Inferred);
    }
    if args.len() > 1 {
        assert(args@[0].at < args@[0].end <= hi);
        return Err((args[1].at, ErrorKind::DuplicateDirective));
    }
    let a = &args[0];
    assert(arg_matches(toks@, args@[0]) && a.end <= toks.len());
    let ghost gives = exists|h: ExportHint| #[trigger] export_gives(toks@, lo as int, hi as int, h);
    proof {
        if gives {
            let hw = choose|h: ExportHint| #[trigger] export_gives(toks@, lo as int, hi as int, h);
            let aw = choose|a: Seq<Arg>| #[trigger] export_args(toks@, lo as int, hi as int, a) && if hw is Inferred {
                a.len() == 0
            } else {
                a.len() == 1 && export_matches(toks@, a[0], hw)
            };
            assert(crate::attr::args_agree(aw, args@));
            assert(aw[0].key@ == args@[0].key@ && aw[0].value == args@[0].value);
            assert(export_matches(toks@, args@[0], hw));
        }
    }
    assert(gives ==> exists|h: ExportHint| export_matches(toks@, args@[0], h));
    let kind = match shorthand(&a.key) {
        Some(k) => k,
        None => return Err((a.at, ErrorKind::UnknownShorthand)),
    };
    let bad = Err((a.at, ErrorKind::MalformedValue));
    match kind {
        HintKind::Range => match a.value {
            ArgValue::Assign(x, y) => match paren_value(toks, x, y) {
                Some((p, q)) => match parse_range(toks, p, q) {
                    Some(rh) => Ok(ExportHint::Range(rh)),
                    None => bad,
                },
                None => bad,
            },
            _ => bad,
        },
        HintKind::Enum => match table(toks, a) {
            Ok(ls) => match enum_entries(&ls) {
                Some(es) => Ok(ExportHint::Enum(es)),
                None => {
                    assert(export_args(toks@, lo as int, hi as int, args@) && table_of(toks@, args@[0], ls@));
                    Err((a.at, ErrorKind::EnumKeysNotIncreasing))
                },
            },
            Err(at) => Err((at, ErrorKind::MalformedValue)),
        },
        HintKind::Flags => match table(toks, a) {
            Ok(ls) => Ok(ExportHint::Flags(ls)),
            Err(at) => Err((at, ErrorKind::MalformedValue)),
        },
        HintKind::File | HintKind::GlobalFile => {
            let global = kind == HintKind::GlobalFile;
            match a.value {
                ArgValue::Flag => Ok(ExportHint::File { global, filter: None }),
                ArgValue::Assign(x, y) => match lit_value(toks, x, y) {
                    Some(t) => Ok(ExportHint::File { global, filter: Some(t) }),
                    None => bad,
                },
                _ => bad,
            }
        },
        HintKind::Dir | HintKind::GlobalDir => match a.value {
            ArgValue::Flag => Ok(ExportHint::Dir { global: kind == HintKind::GlobalDir }),
            _ => bad,
        },
        HintKind::Placeholder => match a.value {
            ArgValue::Assign(x, y) => match lit_value(toks, x, y) {
                Some(t) => Ok(ExportHint::Placeholder(t)),
                None => bad,
            },
            _ => bad,
        },
        _ => match a.value {
            ArgValue::Flag => Ok(ExportHint::Plain(kind)),
            _ => bad,
        },
    }
}

} // verus!
