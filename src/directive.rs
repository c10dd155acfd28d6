use vstd::prelude::*;
use crate::attr::{Arg, ArgValue, ArgError, args_of, arg_matches, parse_args};
use crate::diag::ErrorKind;
use crate::model::RoleHints;
use crate::text::word_is;
use crate::tokens::{Tok, balanced};

verus! {

/// One attribute on a declaration, field or method: `#[name(args)]`, with
/// the tokens inside the parentheses (none for a bare `#[name]`).
#[derive(Debug)]
pub struct Attribute {
    pub name: String,
    pub args: Vec<Tok>,
}

/// Copies a token exactly.
pub fn copy_tok(t: &Tok) -> (r: Tok)
    ensures
        r == *t,
{
    match t {
        Tok::Ident(s) => Tok::Ident(s.clone()),
        Tok::Punct(c) => Tok::Punct(*c),
        Tok::Lit(s) => Tok::Lit(s.clone()),
        Tok::Open(d) => Tok::Open(*d),
        Tok::Close(d) => Tok::Close(*d),
    }
}

/// Copies the tokens `lo..hi`.
pub fn copy_range(toks: &Vec<Tok>, lo: usize, hi: usize) -> (r: Vec<Tok>)
    requires
        lo <= hi <= toks.len(),
    ensures
        r@ == toks@.subrange(lo as int, hi as int),
{
    let mut out: Vec<Tok> = Vec::new();
    let mut i: usize = lo;
    while i < hi
        invariant
            lo <= i <= hi <= toks.len(),
            out@ == toks@.subrange(lo as int, i as int),
        decreases hi - i,
    {
        out.push(copy_tok(&toks[i]));
        assert(out@ =~= toks@.subrange(lo as int, i + 1));
        i = i + 1;
    }
    out
}

/// The identifier that the value `x..y` consists of.
pub open spec fn ident_value(s: Seq<Tok>, x: int, y: int) -> Option<Seq<char>> {
    if 0 <= x && y <= s.len() && y - x == 1 {
        match s[x] {
            Tok::Ident(n) => Some(n@),
            _ => None,
        }
    } else {
        None
    }
}

fn ident_value_of(toks: &Vec<Tok>, x: usize, y: usize) -> (r: Option<String>)
    requires
        x <= y <= toks.len(),
    ensures
        r matches Some(n) ==> ident_value(toks@, x as int, y as int) == Some(n@),
        r is None ==> ident_value(toks@, x as int, y as int) is None,
{
    if y - x == 1 {
        match &toks[x] {
            Tok::Ident(n) => Some(n.clone()),
            _ => None,
        }
    } else {
        None
    }
}

/// Some argument of `a` has the key `w`.
pub open spec fn has_key(a: Seq<Arg>, w: Seq<char>) -> bool {
    exists|k: int| 0 <= k < a.len() && (#[trigger] a[k]).key@ == w
}

/// Argument `a` is `key = Name` and `n` holds that name.
pub open spec fn names(s: Seq<Tok>, a: Arg, n: Option<String>) -> bool {
    match (a.value, n) {
        (ArgValue::Assign(x, y), Some(b)) => ident_value(s, x as int, y as int) == Some(b@),
        _ => false,
    }
}

proof fn lemma_has_key_push(prev: Seq<Arg>, x: Arg, w: Seq<char>)
    ensures
        has_key(prev.push(x), w) == (has_key(prev, w) || x.key@ == w),
{
    let next = prev.push(x);
    if has_key(prev, w) {
        let k = choose|k: int| 0 <= k < prev.len() && (#[trigger] prev[k]).key@ == w;
        assert(next[k] == prev[k]);
    }
    if x.key@ == w {
        assert(next[prev.len() as int] == x);
    }
    if has_key(next, w) {
        let k = choose|k: int| 0 <= k < next.len() && (#[trigger] next[k]).key@ == w;
        if k < prev.len() {
            assert(next[k] == prev[k]);
        }
    }
}

/// Class-level configuration.
#[derive(Debug)]
pub struct ClassDirective {
    pub base: Option<String>,
    pub init: bool,
    pub no_init: bool,
    pub tool: bool,
    pub editor_plugin: bool,
    pub hide: bool,
    pub rename: Option<String>,
}

pub open spec fn is_class_flag(w: Seq<char>) -> bool {
    w == "init"@ || w == "no_init"@ || w == "tool"@ || w == "editor_plugin"@ || w == "hide"@
}

pub open spec fn is_class_key(w: Seq<char>) -> bool {
    is_class_flag(w) || w == "base"@ || w == "rename"@
}

/// The arguments `a` of a class attribute give the directive `d`.
pub open spec fn class_directive_of(s: Seq<Tok>, a: Seq<Arg>, d: ClassDirective) -> bool {
    &&& d.init == has_key(a, "init"@)
    &&& d.no_init == has_key(a, "no_init"@)
    &&& d.tool == has_key(a, "tool"@)
    &&& d.editor_plugin == has_key(a, "editor_plugin"@)
    &&& d.hide == has_key(a, "hide"@)
    &&& d.base is Some == has_key(a, "base"@)
    &&& d.rename is Some == has_key(a, "rename"@)
    &&& forall|k: int|
        0 <= k < a.len() && (#[trigger] a[k]).key@ == "base"@ ==> names(s, a[k], d.base)
    &&& forall|k: int|
        0 <= k < a.len() && (#[trigger] a[k]).key@ == "rename"@ ==> names(s, a[k], d.rename)
    &&& forall|k: int| 0 <= k < a.len() ==> is_class_key((#[trigger] a[k]).key@)
    &&& class_valid(s, a)
}

/// Every argument of a class attribute is well formed, and no key repeats.
pub open spec fn class_valid(s: Seq<Tok>, a: Seq<Arg>) -> bool {
    (forall|k: int| 0 <= k < a.len() ==> class_arg_ok(s, #[trigger] a[k])) && !repeats_key(a)
}

proof fn lemma_no_repeat_push(prev: Seq<Arg>, x: Arg)
    requires
        !repeats_key(prev),
        !has_key(prev, x.key@),
    ensures
        !repeats_key(prev.push(x)),
{
    let next = prev.push(x);
    if repeats_key(next) {
        let (i, j) = choose|i: int, j: int| 0 <= i < j < next.len() && (#[trigger] next[i]).key@ == (#[trigger] next[j]).key@;
        assert(next[i] == prev[i]);
        if j < prev.len() {
            assert(next[j] == prev[j]);
        } else {
            assert(prev[i].key@ == x.key@);
        }
    }
}

/// Argument lists that agree are valid together.
proof fn lemma_valid_transfer(s: Seq<Tok>, a1: Seq<Arg>, a2: Seq<Arg>)
    requires
        crate::attr::args_agree(a1, a2),
    ensures
        class_valid(s, a1) == class_valid(s, a2),
        var_valid(s, a1) == var_valid(s, a2),
        hint_valid(a1) == hint_valid(a2),
{
    assert forall|k: int| 0 <= k < a1.len() implies class_arg_ok(s, #[trigger] a1[k]) == class_arg_ok(s, a2[k])
        && var_arg_ok(s, a1[k]) == var_arg_ok(s, a2[k]) && hint_arg_ok(a1[k]) == hint_arg_ok(a2[k]) by {
        assert(a1[k].key@ == a2[k].key@ && a1[k].value == a2[k].value);
    }
    assert((forall|k: int| 0 <= k < a1.len() ==> class_arg_ok(s, #[trigger] a1[k])) == (forall|k: int|
        0 <= k < a2.len() ==> class_arg_ok(s, #[trigger] a2[k]))) by {
        if forall|k: int| 0 <= k < a1.len() ==> class_arg_ok(s, #[trigger] a1[k]) {
            assert forall|k: int| 0 <= k < a2.len() implies class_arg_ok(s, #[trigger] a2[k]) by {
                assert(class_arg_ok(s, a1[k]));
            }
        }
        if forall|k: int| 0 <= k < a2.len() ==> class_arg_ok(s, #[trigger] a2[k]) {
            assert forall|k: int| 0 <= k < a1.len() implies class_arg_ok(s, #[trigger] a1[k]) by {
                assert(class_arg_ok(s, a2[k]));
            }
        }
    }
    assert((forall|k: int| 0 <= k < a1.len() ==> var_arg_ok(s, #[trigger] a1[k])) == (forall|k: int|
        0 <= k < a2.len() ==> var_arg_ok(s, #[trigger] a2[k]))) by {
        if forall|k: int| 0 <= k < a1.len() ==> var_arg_ok(s, #[trigger] a1[k]) {
            assert forall|k: int| 0 <= k < a2.len() implies var_arg_ok(s, #[trigger] a2[k]) by {
                assert(var_arg_ok(s, a1[k]));
            }
        }
        if forall|k: int| 0 <= k < a2.len() ==> var_arg_ok(s, #[trigger] a2[k]) {
            assert forall|k: int| 0 <= k < a1.len() implies var_arg_ok(s, #[trigger] a1[k]) by {
                assert(var_arg_ok(s, a2[k]));
            }
        }
    }
    assert(hint_valid(a1) == hint_valid(a2)) by {
        if hint_valid(a1) {
            assert forall|k: int| 0 <= k < a2.len() implies hint_arg_ok(#[trigger] a2[k]) by {
                assert(hint_arg_ok(a1[k]));
            }
        }
        if hint_valid(a2) {
            assert forall|k: int| 0 <= k < a1.len() implies hint_arg_ok(#[trigger] a1[k]) by {
                assert(hint_arg_ok(a2[k]));
            }
        }
    }
    if repeats_key(a1) {
        let (i, j) = choose|i: int, j: int| 0 <= i < j < a1.len() && (#[trigger] a1[i]).key@ == (#[trigger] a1[j]).key@;
        assert(a2[i].key@ == a2[j].key@);
    }
    if repeats_key(a2) {
        let (i, j) = choose|i: int, j: int| 0 <= i < j < a2.len() && (#[trigger] a2[i]).key@ == (#[trigger] a2[j]).key@;
        assert(a1[i].key@ == a1[j].key@);
    }
}

/// A well-formed class argument: a bare flag key, or `base`/`rename` with
/// an identifier value.
pub open spec fn class_arg_ok(s: Seq<Tok>, a: Arg) -> bool {
    ||| is_class_flag(a.key@) && a.value is Flag
    ||| (a.key@ == "base"@ || a.key@ == "rename"@) && match a.value {
        ArgValue::Assign(x, y) => ident_value(s, x as int, y as int) is Some,
        _ => false,
    }
}

/// Two arguments of `a` share a key.
pub open spec fn repeats_key(a: Seq<Arg>) -> bool {
    exists|i: int, j: int| 0 <= i < j < a.len() && (#[trigger] a[i]).key@ == (#[trigger] a[j]).key@
}

proof fn lemma_repeats(a: Seq<Arg>, i: int, w: Seq<char>)
    requires
        0 <= i < a.len(),
        has_key(a.subrange(0, i), w),
        a[i].key@ == w,
    ensures
        repeats_key(a),
{
    let k = choose|k: int| 0 <= k < i && (#[trigger] a.subrange(0, i)[k]).key@ == w;
    assert(a.subrange(0, i)[k] == a[k]);
    assert(a[k].key@ == a[i].key@);
}

/// Reads a class attribute: `base = Name`, `init`, `no_init`, `tool`,
/// `editor_plugin`, `rename = Name`, `hide`. Each key at most once. Succeeds
/// whenever the brackets balance and the arguments are well formed without
/// repeated keys.
pub fn parse_class_directive(toks: &Vec<Tok>) -> (r: Result<ClassDirective, (usize, ErrorKind)>)
    ensures
        !balanced(toks@, 0, toks.len() as int) ==> r is Err,
        r matches Ok(d) ==> balanced(toks@, 0, toks.len() as int) && exists|a: Seq<Arg>|
            args_of(toks@, 0, toks.len() as int, a) && #[trigger] class_directive_of(toks@, a, d),
        balanced(toks@, 0, toks.len() as int) && (exists|a: Seq<Arg>|
            #[trigger] args_of(toks@, 0, toks.len() as int, a) && class_valid(toks@, a)) ==> r is Ok,
{
    let r = class_directive_from(toks);
    proof {
        if r is Err && balanced(toks@, 0, toks.len() as int) {
            assert forall|a: Seq<Arg>| #[trigger] args_of(toks@, 0, toks.len() as int, a) implies !class_valid(toks@, a) by {
                if exists|b: Seq<Arg>| #[trigger] args_of(toks@, 0, toks.len() as int, b) && !class_valid(toks@, b) {
                    let b = choose|b: Seq<Arg>| #[trigger] args_of(toks@, 0, toks.len() as int, b) && !class_valid(toks@, b);
                    crate::attr::lemma_args_unique(toks@, 0, toks.len() as int, a, b);
                    lemma_valid_transfer(toks@, a, b);
                }
            }
        }
    }
    r
}

fn class_directive_from(toks: &Vec<Tok>) -> (r: Result<ClassDirective, (usize, ErrorKind)>)
    ensures
        !balanced(toks@, 0, toks.len() as int) ==> r is Err,
        r is Err ==> !balanced(toks@, 0, toks.len() as int) || !(exists|a: Seq<Arg>|
            #[trigger] args_of(toks@, 0, toks.len() as int, a)) || exists|a: Seq<Arg>|
            #[trigger] args_of(toks@, 0, toks.len() as int, a) && !class_valid(toks@, a),
        r matches Ok(d) ==> balanced(toks@, 0, toks.len() as int) && exists|a: Seq<Arg>|
            args_of(toks@, 0, toks.len() as int, a) && #[trigger] class_directive_of(toks@, a, d),
{
    let args = match parse_args(toks, 0, toks.len()) {
        Ok(a) => a,
        Err(ArgError::Unbalanced) => return Err((0, ErrorKind::UnbalancedBrackets)),
        Err(ArgError::Malformed(at)) => return Err((at, ErrorKind::MalformedArgument)),
    };
    let mut d = ClassDirective {
        base: None,
        init: false,
        no_init: false,
        tool: false,
        editor_plugin: false,
        hide: false,
        rename: None,
    };
    let mut i: usize = 0;
    while i < args.len()
        invariant
            0 <= i <= args.len(),
            args_of(toks@, 0, toks.len() as int, args@),
            balanced(toks@, 0, toks.len() as int),
            class_directive_of(toks@, args@.subrange(0, i as int), d),
        decreases args.len() - i,
    {
        let a = &args[i];
        let ghost prev = args@.subrange(0, i as int);
        let ghost next = args@.subrange(0, i + 1);
        assert(next[i as int] == args@[i as int]);
        assert(forall|k: int| 0 <= k < i ==> #[trigger] next[k] == prev[k]);
        assert(next =~= prev.push(args@[i as int]));
        proof {
            reveal_strlit("base");
            reveal_strlit("rename");
            reveal_strlit("init");
            reveal_strlit("no_init");
            reveal_strlit("tool");
            reveal_strlit("editor_plugin");
            reveal_strlit("hide");
            lemma_has_key_push(prev, args@[i as int], "base"@);
            lemma_has_key_push(prev, args@[i as int], "rename"@);
            lemma_has_key_push(prev, args@[i as int], "init"@);
            lemma_has_key_push(prev, args@[i as int], "no_init"@);
            lemma_has_key_push(prev, args@[i as int], "tool"@);
            lemma_has_key_push(prev, args@[i as int], "editor_plugin"@);
            lemma_has_key_push(prev, args@[i as int], "hide"@);
            assert("base"@[0] == 'b');
            assert("rename"@[0] == 'r');
            assert("init"@[0] == 'i');
            assert("no_init"@[0] == 'n');
            assert("tool"@[0] == 't');
            assert("editor_plugin"@[0] == 'e');
            assert("hide"@[0] == 'h');
        }
        assert(arg_matches(toks@, args@[i as int]));
        assert(args@[i as int].end <= toks.len());
        let flag = match a.value {
            ArgValue::Flag => true,
            _ => false,
        };
        if word_is(&a.key, "base") || word_is(&a.key, "rename") {
            let is_base = word_is(&a.key, "base");
            let name = match a.value {
                ArgValue::Assign(x, y) => match ident_value_of(toks, x, y) {
                    Some(n) => n,
                    None => {
                        assert(!class_arg_ok(toks@, args@[i as int]));
                        return Err((a.at, ErrorKind::MalformedValue));
                    },
                },
                _ => {
                    assert(!class_arg_ok(toks@, args@[i as int]));
                    return Err((a.at, ErrorKind::MalformedValue));
                },
            };
            if is_base {
                if d.base.is_some() {
                    proof {
                        lemma_repeats(args@, i as int, "base"@);
                    }
                    return Err((a.at, ErrorKind::DuplicateDirective));
                }
                d.base = Some(name);
            } else {
                if d.rename.is_some() {
                    proof {
                        lemma_repeats(args@, i as int, "rename"@);
                    }
                    return Err((a.at, ErrorKind::DuplicateDirective));
                }
                d.rename = Some(name);
            }
        } else if !flag {
            assert(!class_arg_ok(toks@, args@[i as int]));
            return Err((a.at, ErrorKind::MalformedValue));
        } else if word_is(&a.key, "init") {
            if d.init {
                proof {
                    lemma_repeats(args@, i as int, "init"@);
                }
                return Err((a.at, ErrorKind::DuplicateDirective));
            }
            d.init = true;

        } else if word_is(&a.key, "no_init") {
            if d.no_init {
                proof {
                    lemma_repeats(args@, i as int, "no_init"@);
                }
                return Err((a.at, ErrorKind::DuplicateDirective));
            }
            d.no_init = true;
        } else if word_is(&a.key, "tool") {
            if d.tool {
                proof {
                    lemma_repeats(args@, i as int, "tool"@);
                }
                return Err((a.at, ErrorKind::DuplicateDirective));
            }
            d.tool = true;
        } else if word_is(&a.key, "editor_plugin") {
            if d.editor_plugin {
                proof {
                    lemma_repeats(args@, i as int, "editor_plugin"@);
                }
                return Err((a.at, ErrorKind::DuplicateDirective));
            }
            d.editor_plugin = true;
        } else if word_is(&a.key, "hide") {
            if d.hide {
                proof {
                    lemma_repeats(args@, i as int, "hide"@);
                }
                return Err((a.at, ErrorKind::DuplicateDirective));
            }
            d.hide = true;
        } else {
            assert(!class_arg_ok(toks@, args@[i as int]));
            return Err((a.at, ErrorKind::UnknownKey));
        }
        proof {
            assert(!has_key(prev, args@[i as int].key@));
            lemma_no_repeat_push(prev, args@[i as int]);
        }
        assert(class_directive_of(toks@, next, d));
        i = i + 1;
    }
    assert(args@.subrange(0, args.len() as int) =~= args@);
    Ok(d)
}

/// One accessor of a property.
#[derive(Debug)]
pub enum Accessor {
    /// No accessor: the property cannot be read (or written) this way.
    Absent,
    /// A trivial accessor generated for the field.
    Generated,
    /// The user's exposed function of this name.
    Custom(String),
}

/// `None` for no accessor, `Some(None)` for a generated one, `Some(Some(n))`
/// for the user's function `n`.
pub open spec fn accessor_view(a: Accessor) -> Option<Option<Seq<char>>> {
    match a {
        Accessor::Absent => None,
        Accessor::Generated => Some(None),
        Accessor::Custom(n) => Some(Some(n@)),
    }
}

/// The accessor that argument `a` writes: bare `get` (generated) or `get = name`.
pub open spec fn accessor_arg(s: Seq<Tok>, a: Arg) -> Option<Option<Seq<char>>> {
    match a.value {
        ArgValue::Flag => Some(None),
        ArgValue::Assign(x, y) => match ident_value(s, x as int, y as int) {
            Some(n) => Some(Some(n)),
            None => None,
        },
        _ => None,
    }
}

/// A property directive: its getter and setter.
#[derive(Debug)]
pub struct VarDirective {
    pub getter: Accessor,
    pub setter: Accessor,
}

/// The accessor for key `w` among the arguments `a`.
pub open spec fn accessor_of(s: Seq<Tok>, a: Seq<Arg>, w: Seq<char>, acc: Accessor) -> bool {
    &&& !has_key(a, w) ==> acc is Absent
    &&& forall|k: int|
        0 <= k < a.len() && (#[trigger] a[k]).key@ == w ==> accessor_view(acc) == accessor_arg(s, a[k])
}

/// The arguments `a` of a property attribute give `v`: with no arguments
/// both accessors are generated; otherwise each is what its key says, and
/// absent without its key.
pub open spec fn var_directive_of(s: Seq<Tok>, a: Seq<Arg>, v: VarDirective) -> bool {
    if a.len() == 0 {
        v.getter is Generated && v.setter is Generated
    } else {
        &&& accessor_of(s, a, "get"@, v.getter)
        &&& accessor_of(s, a, "set"@, v.setter)
        &&& forall|k: int| 0 <= k < a.len() ==> (#[trigger] a[k]).key@ == "get"@ || a[k].key@ == "set"@
        &&& var_valid(s, a)
    }
}

/// Every argument of a property attribute is well formed, and no key repeats.
pub open spec fn var_valid(s: Seq<Tok>, a: Seq<Arg>) -> bool {
    (forall|k: int| 0 <= k < a.len() ==> var_arg_ok(s, #[trigger] a[k])) && !repeats_key(a)
}

fn accessor_from(toks: &Vec<Tok>, a: &Arg) -> (r: Option<Accessor>)
    requires
        arg_matches(toks@, *a),
        a.end <= toks.len(),
    ensures
        r matches Some(acc) ==> accessor_view(acc) == accessor_arg(toks@, *a) && !(acc is Absent),
        r is None ==> accessor_arg(toks@, *a) is None,
{
    match a.value {
        ArgValue::Flag => Some(Accessor::Generated),
        ArgValue::Assign(x, y) => match ident_value_of(toks, x, y) {
            Some(n) => Some(Accessor::Custom(n)),
            None => None,
        },
        _ => None,
    }
}

/// Every argument is well formed and lies within the tokens.
pub open spec fn args_in(s: Seq<Tok>, a: Seq<Arg>) -> bool {
    forall|k: int| 0 <= k < a.len() ==> arg_matches(s, #[trigger] a[k]) && a[k].end <= s.len()
}

proof fn lemma_args_in(s: Seq<Tok>, lo: int, hi: int, a: Seq<Arg>)
    requires
        args_of(s, lo, hi, a),
        hi <= s.len(),
    ensures
        args_in(s, a),
{
}

/// A well-formed argument of a property attribute.
pub open spec fn var_arg_ok(s: Seq<Tok>, a: Arg) -> bool {
    (a.key@ == "get"@ || a.key@ == "set"@) && accessor_arg(s, a) is Some
}

fn var_from_args(toks: &Vec<Tok>, args: &Vec<Arg>) -> (r: Result<VarDirective, (usize, ErrorKind)>)
    requires
        args_in(toks@, args@),
    ensures
        r matches Ok(v) ==> var_directive_of(toks@, args@, v),
        r is Err ==> repeats_key(args@) || exists|k: int| 0 <= k < args.len() && !var_arg_ok(toks@, #[trigger] args@[k]),
{
    if args.len() == 0 {
        return Ok(VarDirective { getter: Accessor::Generated, setter: Accessor::Generated });
    }
    let mut getter = Accessor::Absent;
    let mut setter = Accessor::Absent;
    let mut i: usize = 0;
    while i < args.len()
        invariant
            0 <= i <= args.len(),
            args_in(toks@, args@),
            accessor_of(toks@, args@.subrange(0, i as int), "get"@, getter),
            accessor_of(toks@, args@.subrange(0, i as int), "set"@, setter),
            forall|k: int| 0 <= k < i ==> (#[trigger] args@[k]).key@ == "get"@ || args@[k].key@ == "set"@,
            forall|k: int| 0 <= k < i ==> accessor_arg(toks@, #[trigger] args@[k]) is Some,
            !repeats_key(args@.subrange(0, i as int)),
        decreases args.len() - i,
    {
        let a = &args[i];
        let ghost prev = args@.subrange(0, i as int);
        let ghost next = args@.subrange(0, i + 1);
        assert(forall|k: int| 0 <= k < i ==> #[trigger] next[k] == prev[k]);
        assert(next =~= prev.push(args@[i as int]));
        assert(arg_matches(toks@, args@[i as int]) && args@[i as int].end <= toks.len());
        proof {
            reveal_strlit("get");
            reveal_strlit("set");
            assert("get"@[0] == 'g');
            assert("set"@[0] == 's');
            lemma_has_key_push(prev, args@[i as int], "get"@);
            lemma_has_key_push(prev, args@[i as int], "set"@);
        }
        let is_get = word_is(&a.key, "get");
        if !is_get && !word_is(&a.key, "set") {
            return Err((a.at, ErrorKind::UnknownKey));
        }
        let acc = match accessor_from(toks, a) {
            Some(acc) => acc,
            None => return Err((a.at, ErrorKind::MalformedValue)),
        };
        assert(forall|k: int| 0 <= k < i ==> accessor_arg(toks@, #[trigger] prev[k]) is Some);
        if is_get {
            if !matches!(getter, Accessor::Absent) {
                return Err((a.at, ErrorKind::DuplicateDirective));
            }
            getter = acc;
        } else {
            if !matches!(setter, Accessor::Absent) {
                return Err((a.at, ErrorKind::DuplicateDirective));
            }
            setter = acc;
        }
        proof {
            assert(!has_key(prev, args@[i as int].key@));
            lemma_no_repeat_push(prev, args@[i as int]);
        }
        i = i + 1;
    }
    assert(args@.subrange(0, args.len() as int) =~= args@);
    Ok(VarDirective { getter, setter })
}

/// Reads a property attribute: empty, or `get`, `get = f`, `set`, `set = g`.
pub fn parse_var_directive(toks: &Vec<Tok>) -> (r: Result<VarDirective, (usize, ErrorKind)>)
    ensures
        !balanced(toks@, 0, toks.len() as int) ==> r is Err,
        r matches Ok(v) ==> balanced(toks@, 0, toks.len() as int) && exists|a: Seq<Arg>|
            args_of(toks@, 0, toks.len() as int, a) && #[trigger] var_directive_of(toks@, a, v),
        balanced(toks@, 0, toks.len() as int) && (exists|a: Seq<Arg>|
            #[trigger] args_of(toks@, 0, toks.len() as int, a) && var_valid(toks@, a)) ==> r is Ok,
{
    let args = match parse_args(toks, 0, toks.len()) {
        Ok(a) => a,
        Err(ArgError::Unbalanced) => return Err((0, ErrorKind::UnbalancedBrackets)),
        Err(ArgError::Malformed(at)) => return Err((at, ErrorKind::MalformedArgument)),
    };
    proof {
        lemma_args_in(toks@, 0, toks.len() as int, args@);
    }
    let r = var_from_args(toks, &args);
    proof {
        if r is Ok {
            assert(var_directive_of(toks@, args@, r->Ok_0));
        } else {
            assert(!var_valid(toks@, args@));
            assert forall|a: Seq<Arg>| #[trigger] args_of(toks@, 0, toks.len() as int, a) implies !var_valid(toks@, a) by {
                lemma_valid_transfer(toks@, a, args@);
            }
        }
    }
    r
}

/// The arguments `a` of a hint attribute give the role hints `h`.
pub open spec fn role_hints_of(a: Seq<Arg>, h: RoleHints) -> bool {
    &&& h.base == has_key(a, "base"@)
    &&& h.no_base == has_key(a, "no_base"@)
    &&& h.onready == has_key(a, "onready"@)
    &&& h.no_onready == has_key(a, "no_onready"@)
    &&& forall|k: int| 0 <= k < a.len() ==> (#[trigger] a[k]).value is Flag
    &&& hint_valid(a)
}

/// Every argument of a hint attribute is a bare known key.
pub open spec fn hint_valid(a: Seq<Arg>) -> bool {
    forall|k: int| 0 <= k < a.len() ==> hint_arg_ok(#[trigger] a[k])
}

/// A key of the hint attribute.
pub open spec fn is_hint_key(w: Seq<char>) -> bool {
    w == "base"@ || w == "no_base"@ || w == "onready"@ || w == "no_onready"@
}

/// A well-formed argument of the hint attribute: a bare known key.
pub open spec fn hint_arg_ok(a: Arg) -> bool {
    a.value is Flag && is_hint_key(a.key@)
}

fn hints_from_args(args: &Vec<Arg>) -> (r: Result<RoleHints, (usize, ErrorKind)>)
    ensures
        r matches Ok(h) ==> role_hints_of(args@, h),
        r is Err ==> exists|k: int| 0 <= k < args.len() && !hint_arg_ok(#[trigger] args@[k]),
{
    let mut h = RoleHints { base: false, no_base: false, onready: false, no_onready: false };
    let mut i: usize = 0;
    while i < args.len()
        invariant
            0 <= i <= args.len(),
            role_hints_of(args@.subrange(0, i as int), h),
            0 <= i <= args.len(),
        decreases args.len() - i,
    {
        let a = &args[i];
        let ghost prev = args@.subrange(0, i as int);
        let ghost next = args@.subrange(0, i + 1);
        assert(forall|k: int| 0 <= k < i ==> #[trigger] next[k] == prev[k]);
        assert(next =~= prev.push(args@[i as int]));
        proof {
            reveal_strlit("base");
            reveal_strlit("no_base");
            reveal_strlit("onready");
            reveal_strlit("no_onready");
            assert("base"@[0] == 'b');
            assert("onready"@[0] == 'o');
            assert("no_base"@[3] == 'b');
            assert("no_onready"@[3] == 'o');
            assert("no_base"@[0] == 'n');
            assert("no_onready"@[0] == 'n');
            lemma_has_key_push(prev, args@[i as int], "base"@);
            lemma_has_key_push(prev, args@[i as int], "no_base"@);
            lemma_has_key_push(prev, args@[i as int], "onready"@);
            lemma_has_key_push(prev, args@[i as int], "no_onready"@);
        }
        if !matches!(a.value, ArgValue::Flag) {
            assert(!hint_arg_ok(args@[i as int]));
            return Err((a.at, ErrorKind::MalformedValue));
        }
        if word_is(&a.key, "base") {
            h.base = true;
        } else if word_is(&a.key, "no_base") {
            h.no_base = true;
        } else if word_is(&a.key, "onready") {
            h.onready = true;
        } else if word_is(&a.key, "no_onready") {
            h.no_onready = true;
        } else {
            assert(!hint_arg_ok(args@[i as int]));
            return Err((a.at, ErrorKind::UnknownKey));
        }
        i = i + 1;
    }
    assert(args@.subrange(0, args.len() as int) =~= args@);
    assert(role_hints_of(args@, h));
    Ok(h)
}

/// Reads a hint attribute: any of `base`, `no_base`, `onready`, `no_onready`.
/// Fails only on unbalanced brackets, a malformed argument, or an argument
/// that is not a bare known key.
pub fn parse_role_hints(toks: &Vec<Tok>) -> (r: Result<RoleHints, (usize, ErrorKind)>)
    ensures
        !balanced(toks@, 0, toks.len() as int) ==> r is Err,
        r matches Ok(h) ==> balanced(toks@, 0, toks.len() as int) && exists|a: Seq<Arg>|
            args_of(toks@, 0, toks.len() as int, a) && #[trigger] role_hints_of(a, h),
        balanced(toks@, 0, toks.len() as int) && (exists|a: Seq<Arg>|
            #[trigger] args_of(toks@, 0, toks.len() as int, a) && hint_valid(a)) ==> r is Ok,
{
    let args = match parse_args(toks, 0, toks.len()) {
        Ok(a) => a,
        Err(ArgError::Unbalanced) => return Err((0, ErrorKind::UnbalancedBrackets)),
        Err(ArgError::Malformed(at)) => return Err((at, ErrorKind::MalformedArgument)),
    };
    let r = hints_from_args(&args);
    proof {
        if r is Ok {
            assert(role_hints_of(args@, r->Ok_0));
        } else {
            assert(!hint_valid(args@));
            assert forall|a: Seq<Arg>| #[trigger] args_of(toks@, 0, toks.len() as int, a) implies !hint_valid(a) by {
                lemma_valid_transfer(toks@, a, args@);
            }
        }
    }
    r
}

} // verus!
