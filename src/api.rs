use vstd::prelude::*;
use crate::attr::{ArgError, ArgValue, parse_args};
use crate::class::{ClassDescriptor, PropertyDescriptor, has_attr};
use crate::diag::{Diagnostic, ErrorKind, Site};
use crate::directive::{Accessor, Attribute};
use crate::text::word_is;

verus! {

/// A method of an impl block: name, parameter count (receiver excluded) and
/// attributes.
#[derive(Debug)]
pub struct Method {
    pub name: String,
    pub params: usize,
    /// The receiver is `&mut self`.
    pub receiver_mut: bool,
    pub attrs: Vec<Attribute>,
}

/// An impl block: inherent (`trait_name` is `None`) or a trait impl.
#[derive(Debug)]
pub struct ImplBlock {
    pub trait_name: Option<String>,
    pub methods: Vec<Method>,
}

/// Host lifecycle methods that a trait impl block may override.
#[derive(Clone, Copy, PartialEq, Eq, Structural, Debug)]
pub enum Lifecycle {
    Init,
    Ready,
    Process,
    PhysicsProcess,
    Input,
    UnhandledInput,
    EnterTree,
    ExitTree,
    Draw,
    OnNotification,
    ToString,
}

/// The fixed table of lifecycle method names.
pub open spec fn lifecycle_of(w: Seq<char>) -> Option<Lifecycle> {
    if w == "init"@ {
        Some(Lifecycle::Init)
    } else if w == "ready"@ {
        Some(Lifecycle::Ready)
    } else if w == "process"@ {
        Some(Lifecycle::Process)
    } else if w == "physics_process"@ {
        Some(Lifecycle::PhysicsProcess)
    } else if w == "input"@ {
        Some(Lifecycle::Input)
    } else if w == "unhandled_input"@ {
        Some(Lifecycle::UnhandledInput)
    } else if w == "enter_tree"@ {
        Some(Lifecycle::EnterTree)
    } else if w == "exit_tree"@ {
        Some(Lifecycle::ExitTree)
    } else if w == "draw"@ {
        Some(Lifecycle::Draw)
    } else if w == "on_notification"@ {
        Some(Lifecycle::OnNotification)
    } else if w == "to_string"@ {
        Some(Lifecycle::ToString)
    } else {
        None
    }
}

pub fn lifecycle(w: &String) -> (r: Option<Lifecycle>)
    ensures
        r == lifecycle_of(w@),
{
    if word_is(w, "init") {
        Some(Lifecycle::Init)
    } else if word_is(w, "ready") {
        Some(Lifecycle::Ready)
    } else if word_is(w, "process") {
        Some(Lifecycle::Process)
    } else if word_is(w, "physics_process") {
        Some(Lifecycle::PhysicsProcess)
    } else if word_is(w, "input") {
        Some(Lifecycle::Input)
    } else if word_is(w, "unhandled_input") {
        Some(Lifecycle::UnhandledInput)
    } else if word_is(w, "enter_tree") {
        Some(Lifecycle::EnterTree)
    } else if word_is(w, "exit_tree") {
        Some(Lifecycle::ExitTree)
    } else if word_is(w, "draw") {
        Some(Lifecycle::Draw)
    } else if word_is(w, "on_notification") {
        Some(Lifecycle::OnNotification)
    } else if word_is(w, "to_string") {
        Some(Lifecycle::ToString)
    } else {
        None
    }
}

/// The lifecycle overrides among the first `n` methods, in order.
pub open spec fn overrides_of(ms: Seq<Method>, n: int) -> Seq<Lifecycle>
    decreases n,
{
    if n <= 0 {
        Seq::empty()
    } else {
        match lifecycle_of(ms[n - 1].name@) {
            Some(l) => overrides_of(ms, n - 1).push(l),
            None => overrides_of(ms, n - 1),
        }
    }
}

/// Records which lifecycle methods a trait impl block overrides, in
/// declaration order. Methods outside the table are not overrides.
pub fn detect_overrides(ms: &Vec<Method>) -> (r: Vec<Lifecycle>)
    ensures
        r@ == overrides_of(ms@, ms.len() as int),
{
    let mut out: Vec<Lifecycle> = Vec::new();
    let mut i: usize = 0;
    while i < ms.len()
        invariant
            0 <= i <= ms.len(),
            out@ == overrides_of(ms@, i as int),
        decreases ms.len() - i,
    {
        match lifecycle(&ms[i].name) {
            Some(l) => out.push(l),
            None => {},
        }
        i = i + 1;
    }
    out
}

/// Whether `init` is among the overrides.
pub fn overrides_init(ov: &Vec<Lifecycle>) -> (r: bool)
    ensures
        r == ov@.contains(Lifecycle::Init),
{
    let mut i: usize = 0;
    while i < ov.len()
        invariant
            0 <= i <= ov.len(),
            forall|j: int| 0 <= j < i ==> ov@[j] != Lifecycle::Init,
        decreases ov.len() - i,
    {
        if ov[i] == Lifecycle::Init {
            return true;
        }
        i = i + 1;
    }
    false
}

/// An exposed function: the method's name and the name the host sees.
#[derive(Debug)]
pub struct FuncDescriptor {
    /// Index of the method in its impl block.
    pub index: usize,
    pub method: String,
    pub exposed: String,
    /// The method takes `&mut self`.
    pub receiver_mut: bool,
}

/// The func attribute `at` on method `method` exposes it as `exposed`: under
/// its own name when the attribute has no arguments, else under the name
/// that `rename = name` gives.
pub open spec fn func_attr_names(at: Attribute, method: Seq<char>, exposed: Seq<char>) -> bool {
    exists|a: Seq<crate::attr::Arg>|
        #[trigger] crate::attr::args_of(at.args@, 0, at.args.len() as int, a) && ((a.len() == 0 && exposed == method)
            || (a.len() == 1 && a[0].key@ == "rename"@ && match a[0].value {
            ArgValue::Assign(x, y) => crate::directive::ident_value(at.args@, x as int, y as int) == Some(exposed),
            _ => false,
        }))
}

/// Function `f` is exposed from method `m` as its func attribute says.
pub open spec fn func_from(m: Method, f: FuncDescriptor) -> bool {
    &&& f.method@ == m.name@
    &&& f.receiver_mut == m.receiver_mut
    &&& exists|j: int|
        0 <= j < m.attrs.len() && (#[trigger] m.attrs@[j]).name@ == "func"@ && func_attr_names(
            m.attrs@[j],
            m.name@,
            f.exposed@,
        )
}

/// What an inherent impl block registers.
#[derive(Debug)]
pub struct ApiDescriptor {
    pub functions: Vec<FuncDescriptor>,
    pub signals: Vec<String>,
}

/// Names of the first `n` methods that carry a signal attribute.
pub open spec fn signals_of(ms: Seq<Method>, n: int) -> Seq<Seq<char>>
    decreases n,
{
    if n <= 0 {
        Seq::empty()
    } else if has_attr(ms[n - 1].attrs@, "signal"@) {
        signals_of(ms, n - 1).push(ms[n - 1].name@)
    } else {
        signals_of(ms, n - 1)
    }
}

/// Names of the first `n` methods that carry a func attribute.
pub open spec fn funcs_of(ms: Seq<Method>, n: int) -> Seq<Seq<char>>
    decreases n,
{
    if n <= 0 {
        Seq::empty()
    } else if has_attr(ms[n - 1].attrs@, "func"@) {
        funcs_of(ms, n - 1).push(ms[n - 1].name@)
    } else {
        funcs_of(ms, n - 1)
    }
}

fn find_attr(attrs: &Vec<Attribute>, w: &str) -> (r: Option<usize>)
    ensures
        r is Some == has_attr(attrs@, w@),
        r matches Some(k) ==> first_named(attrs@, k as int, w@),
        r is None ==> forall|j: int| 0 <= j < attrs.len() ==> (#[trigger] attrs@[j]).name@ != w@,
{
    let mut i: usize = 0;
    while i < attrs.len()
        invariant
            0 <= i <= attrs.len(),
            forall|j: int| 0 <= j < i ==> (#[trigger] attrs@[j]).name@ != w@,
        decreases attrs.len() - i,
    {
        if word_is(&attrs[i].name, w) {
            return Some(i);
        }
        i = i + 1;
    }
    None
}

/// The name that the func attribute arguments `toks` give: `rename = name`,
/// or none.
/// The arguments of a func attribute: none, or `rename = name`.
pub open spec fn func_args_ok(s: Seq<crate::tokens::Tok>, a: Seq<crate::attr::Arg>) -> bool {
    a.len() == 0 || (a.len() == 1 && a[0].key@ == "rename"@ && match a[0].value {
        ArgValue::Assign(x, y) => crate::directive::ident_value(s, x as int, y as int) is Some,
        _ => false,
    })
}

/// A func attribute that balances and whose arguments are well formed.
pub open spec fn func_attr_ok(at: Attribute) -> bool {
    crate::tokens::balanced(at.args@, 0, at.args.len() as int) && exists|a: Seq<crate::attr::Arg>|
        #[trigger] crate::attr::args_of(at.args@, 0, at.args.len() as int, a) && func_args_ok(at.args@, a)
}

/// Attribute `j` is the first one named `w`.
pub open spec fn first_named(attrs: Seq<Attribute>, j: int, w: Seq<char>) -> bool {
    0 <= j < attrs.len() && attrs[j].name@ == w && forall|q: int| 0 <= q < j ==> (#[trigger] attrs[q]).name@ != w
}

/// A method that registers cleanly: its (first) func attribute is well
/// formed and a signal takes no parameters.
pub open spec fn method_ok(m: Method) -> bool {
    &&& forall|j: int| #[trigger] first_named(m.attrs@, j, "func"@) ==> func_attr_ok(m.attrs@[j])
    &&& has_attr(m.attrs@, "signal"@) ==> m.params == 0
}

fn func_rename(toks: &Vec<crate::tokens::Tok>) -> (r: Result<Option<String>, (usize, ErrorKind)>)
    ensures
        r is Ok <==> crate::tokens::balanced(toks@, 0, toks.len() as int) && exists|a: Seq<crate::attr::Arg>|
            #[trigger] crate::attr::args_of(toks@, 0, toks.len() as int, a) && func_args_ok(toks@, a),
        r matches Ok(None) ==> exists|a: Seq<crate::attr::Arg>|
            #[trigger] crate::attr::args_of(toks@, 0, toks.len() as int, a) && a.len() == 0,
        r matches Ok(Some(n)) ==> exists|a: Seq<crate::attr::Arg>|
            #[trigger] crate::attr::args_of(toks@, 0, toks.len() as int, a) && a.len() == 1 && a[0].key@ == "rename"@
                && match a[0].value {
                ArgValue::Assign(x, y) => crate::directive::ident_value(toks@, x as int, y as int) == Some(n@),
                _ => false,
            },
{
    let args = match parse_args(toks, 0, toks.len()) {
        Ok(a) => a,
        Err(ArgError::Unbalanced) => return Err((0, ErrorKind::UnbalancedBrackets)),
        Err(ArgError::Malformed(at)) => return Err((at, ErrorKind::MalformedArgument)),
    };
    assert(crate::attr::args_of(toks@, 0, toks.len() as int, args@));
    if args.len() == 0 {
        return Ok(None);
    }
    if args.len() > 1 {
        return Err((args[1].at, ErrorKind::DuplicateDirective));
    }
    assert(crate::attr::arg_matches(toks@, args@[0]) && args@[0].end <= toks.len());
    if !word_is(&args[0].key, "rename") {
        return Err((args[0].at, ErrorKind::UnknownKey));
    }
    match args[0].value {
        ArgValue::Assign(x, y) => {
            if y - x == 1 {
                match &toks[x] {
                    crate::tokens::Tok::Ident(n) => {
                        assert(func_args_ok(toks@, args@));
                        Ok(Some(n.clone()))
                    },
                    _ => Err((x, ErrorKind::MalformedValue)),
                }
            } else {
                Err((x, ErrorKind::MalformedValue))
            }
        },
        _ => Err((args[0].at, ErrorKind::MalformedValue)),
    }
}

/// Compiles an inherent impl block: methods with a func attribute are
/// exposed (under their name, or the one `rename` gives), methods with a
/// signal attribute are signals, which take no parameters. Order is kept.
pub fn compile_api(ms: &Vec<Method>) -> (r: Result<ApiDescriptor, Vec<Diagnostic>>)
    ensures
        r matches Ok(a) ==> a.functions@.map_values(|f: FuncDescriptor| f.method@) == funcs_of(ms@, ms.len() as int)
            && a.signals@.map_values(|s: String| s@) == signals_of(ms@, ms.len() as int)
            && forall|k: int|
            0 <= k < a.functions.len() ==> (#[trigger] a.functions@[k]).index < ms.len() && func_from(
                ms@[a.functions@[k].index as int],
                a.functions@[k],
            ),
        r matches Err(ds) ==> ds.len() > 0 && forall|k: int| 0 <= k < ds.len() ==> (#[trigger] ds[k]).site is Method,
        r is Err <==> exists|i: int| 0 <= i < ms.len() && !method_ok(#[trigger] ms@[i]),
{
    let mut diags: Vec<Diagnostic> = Vec::new();
    let mut functions: Vec<FuncDescriptor> = Vec::new();
    let mut signals: Vec<String> = Vec::new();
    let mut i: usize = 0;
    while i < ms.len()
        invariant
            0 <= i <= ms.len(),
            diags.len() == 0 ==> functions@.map_values(|f: FuncDescriptor| f.method@) == funcs_of(ms@, i as int),
            diags.len() == 0 ==> signals@.map_values(|s: String| s@) == signals_of(ms@, i as int),
            forall|k: int|
                0 <= k < functions.len() ==> (#[trigger] functions@[k]).index < i && func_from(
                    ms@[functions@[k].index as int],
                    functions@[k],
                ),
            forall|k: int| 0 <= k < diags.len() ==> (#[trigger] diags[k]).site is Method,
            diags.len() > 0 <==> exists|j: int| 0 <= j < i && !method_ok(#[trigger] ms@[j]),
        decreases ms.len() - i,
    {
        let m = &ms[i];
        let ghost fb = functions@;
        let ghost sb = signals@;
        let ghost d0 = diags.len();
        match find_attr(&m.attrs, "func") {
            Some(k) => match func_rename(&m.attrs[k].args) {
                Ok(rename) => {
                    let exposed = match rename {
                        Some(n) => n,
                        None => m.name.clone(),
                    };
                    let fd = FuncDescriptor { index: i, method: m.name.clone(), exposed, receiver_mut: m.receiver_mut };
                    assert(func_attr_names(m.attrs@[k as int], m.name@, fd.exposed@));
                    assert(func_from(ms@[i as int], fd));
                    functions.push(fd);
                    assert(functions@.map_values(|f: FuncDescriptor| f.method@) =~= fb.map_values(
                        |f: FuncDescriptor| f.method@,
                    ).push(m.name@));
                },
                Err((t, kind)) => {
                    assert(first_named(m.attrs@, k as int, "func"@));
                    diags.push(Diagnostic::new(Site::Method(i), t, kind));
                },
            },
            None => {
                assert(forall|j: int| !first_named(m.attrs@, j, "func"@));
            },
        }
        match find_attr(&m.attrs, "signal") {
            Some(_) => {
                if m.params != 0 {
                    diags.push(Diagnostic::new(Site::Method(i), 0, ErrorKind::MalformedValue));
                }
                signals.push(m.name.clone());
                assert(signals@.map_values(|s: String| s@) =~= sb.map_values(|s: String| s@).push(m.name@));
            },
            None => {},
        }
        proof {
            if !method_ok(ms@[i as int]) {
                assert(diags.len() > d0);
            } else {
                assert(diags.len() == d0);
            }
            assert(forall|j: int| 0 <= j < i + 1 && !method_ok(#[trigger] ms@[j]) ==> j < i || j == i);
        }
        i = i + 1;
    }
    if diags.len() > 0 {
        return Err(diags);
    }
    Ok(ApiDescriptor { functions, signals })
}

/// What an impl block registers.
#[derive(Debug)]
pub enum ImplDescriptor {
    /// An inherent block: exposed functions and signals.
    Api(ApiDescriptor),
    /// A trait block: the lifecycle methods it overrides, in order.
    Overrides(Vec<Lifecycle>),
}

/// Compiles an impl block: a trait block records its lifecycle overrides,
/// an inherent block its exposed functions and signals.
pub fn compile_impl(block: &ImplBlock) -> (r: Result<ImplDescriptor, Vec<Diagnostic>>)
    ensures
        block.trait_name is Some ==> (r matches Ok(ImplDescriptor::Overrides(ov)) && ov@ == overrides_of(
            block.methods@,
            block.methods.len() as int,
        )),
        block.trait_name is None ==> match r {
            Ok(ImplDescriptor::Api(a)) => a.functions@.map_values(|f: FuncDescriptor| f.method@) == funcs_of(
                block.methods@,
                block.methods.len() as int,
            ) && a.signals@.map_values(|s: String| s@) == signals_of(block.methods@, block.methods.len() as int),
            Ok(ImplDescriptor::Overrides(_)) => false,
            Err(ds) => ds.len() > 0,
        },
        block.trait_name is None ==> (r is Err <==> exists|i: int|
            0 <= i < block.methods.len() && !method_ok(#[trigger] block.methods@[i])),
{
    if block.trait_name.is_some() {
        Ok(ImplDescriptor::Overrides(detect_overrides(&block.methods)))
    } else {
        match compile_api(&block.methods) {
            Ok(a) => Ok(ImplDescriptor::Api(a)),
            Err(ds) => Err(ds),
        }
    }
}

/// A custom accessor names one of the exposed functions.
pub open spec fn accessor_exposed(a: Accessor, fs: Seq<FuncDescriptor>) -> bool {
    match a {
        Accessor::Custom(n) => exists|k: int| 0 <= k < fs.len() && (#[trigger] fs[k]).method@ == n@,
        _ => true,
    }
}

fn find_func(n: &String, fs: &Vec<FuncDescriptor>) -> (r: bool)
    ensures
        r == exists|k: int| 0 <= k < fs.len() && (#[trigger] fs@[k]).method@ == n@,
{
    let mut i: usize = 0;
    while i < fs.len()
        invariant
            0 <= i <= fs.len(),
            forall|j: int| 0 <= j < i ==> (#[trigger] fs@[j]).method@ != n@,
        decreases fs.len() - i,
    {
        if fs[i].method == *n {
            return true;
        }
        i = i + 1;
    }
    false
}

fn accessor_ok(a: &Accessor, fs: &Vec<FuncDescriptor>) -> (r: bool)
    ensures
        r == accessor_exposed(*a, fs@),
{
    match a {
        Accessor::Custom(n) => find_func(n, fs),
        _ => true,
    }
}

/// The diagnostics for the properties `ps` whose user-named accessors are not
/// among the functions `fs`: for each property in order, one for a missing
/// getter, then one for a missing setter, at the property's field.
pub open spec fn missing_accessors(ps: Seq<PropertyDescriptor>, fs: Seq<FuncDescriptor>, n: int) -> Seq<Diagnostic>
    decreases n,
{
    if n <= 0 {
        Seq::empty()
    } else {
        let rest = missing_accessors(ps, fs, n - 1);
        let p = ps[n - 1];
        let g = if accessor_exposed(p.getter, fs) {
            rest
        } else {
            rest.push(Diagnostic { site: Site::Field(p.field), token: 0, kind: ErrorKind::MissingGetter })
        };
        if accessor_exposed(p.setter, fs) {
            g
        } else {
            g.push(Diagnostic { site: Site::Field(p.field), token: 0, kind: ErrorKind::MissingSetter })
        }
    }
}

/// Checks that every user-named accessor of the class's properties is an
/// exposed function of its API.
pub fn check_accessors(d: &ClassDescriptor, api: &ApiDescriptor) -> (r: Vec<Diagnostic>)
    ensures
        r@ == missing_accessors(d.properties@, api.functions@, d.properties.len() as int),
{
    let mut out: Vec<Diagnostic> = Vec::new();
    let mut i: usize = 0;
    while i < d.properties.len()
        invariant
            0 <= i <= d.properties.len(),
            out@ == missing_accessors(d.properties@, api.functions@, i as int),
        decreases d.properties.len() - i,
    {
        let p: &PropertyDescriptor = &d.properties[i];
        if !accessor_ok(&p.getter, &api.functions) {
            out.push(Diagnostic::new(Site::Field(p.field), 0, ErrorKind::MissingGetter));
        }
        if !accessor_ok(&p.setter, &api.functions) {
            out.push(Diagnostic::new(Site::Field(p.field), 0, ErrorKind::MissingSetter));
        }
        i = i + 1;
    }
    out
}

} // verus!
