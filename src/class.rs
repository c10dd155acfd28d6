use vstd::prelude::*;
use crate::diag::{Diagnostic, ErrorKind, Site};
use crate::directive::{
    Accessor, Attribute, ClassDirective, VarDirective, accessor_view, parse_class_directive,
    parse_role_hints, parse_var_directive, copy_range,
};
use crate::export::{ExportHint, resolve_export};
use crate::model::{
    ConstructionPolicy, FieldRole, RoleHints, classify_field, construction_of, resolve_construction,
    role_of,
};
use crate::text::word_is;
use crate::tokens::{Tok, balanced};

verus! {

/// A field as declared: name, type tokens and attributes.
#[derive(Debug)]
pub struct Field {
    pub name: String,
    pub ty: Vec<Tok>,
    pub attrs: Vec<Attribute>,
}

/// A struct declaration as declared: name, attributes and fields in order.
#[derive(Debug)]
pub struct ClassDecl {
    pub name: String,
    pub attrs: Vec<Attribute>,
    pub fields: Vec<Field>,
}

/// The resolved directives of one field.
#[derive(Debug)]
pub struct FieldDirectives {
    pub name: String,
    pub role: FieldRole,
    pub var: Option<VarDirective>,
    pub export: Option<ExportHint>,
    /// The expression of `init(default = ...)`, if given.
    pub default_expr: Option<Vec<Tok>>,
}

/// A directive set that passed validation.
#[derive(Debug)]
pub struct ValidatedClass {
    pub name: String,
    pub directive: ClassDirective,
    pub policy: ConstructionPolicy,
    pub fields: Vec<FieldDirectives>,
}

/// A registered property.
#[derive(Debug)]
pub struct PropertyDescriptor {
    pub name: String,
    /// Index of the field that stores the property.
    pub field: usize,
    pub getter: Accessor,
    pub setter: Accessor,
    /// Whether the property is shown and saved by the editor.
    pub exported: bool,
}

/// The registration record of one class.
#[derive(Debug)]
pub struct ClassDescriptor {
    /// The name registered with the host.
    pub class_name: String,
    /// The name of the type in source, which a rename never changes.
    pub source_name: String,
    pub base_class: String,
    pub policy: ConstructionPolicy,
    pub properties: Vec<PropertyDescriptor>,
    pub fields: Vec<FieldDirectives>,
    pub base_field: Option<usize>,
    /// Fields initialized after the base handle exists, before the ready hook.
    pub onready_fields: Vec<usize>,
    /// Fields that a generated constructor fills with default values.
    pub default_fields: Vec<usize>,
    pub tool: bool,
    pub editor_plugin: bool,
    pub hidden: bool,
}

pub type PropertyView = (Seq<char>, int, Option<Option<Seq<char>>>, Option<Option<Seq<char>>>, bool);

pub open spec fn property_view(p: PropertyDescriptor) -> PropertyView {
    (p.name@, p.field as int, accessor_view(p.getter), accessor_view(p.setter), p.exported)
}

/// The property that field `f` (at index `i`) declares: its property
/// directive's accessors, or both generated when only exported.
pub open spec fn field_property(f: FieldDirectives, i: int) -> Option<PropertyView> {
    match f.var {
        Some(v) => Some((f.name@, i, accessor_view(v.getter), accessor_view(v.setter), f.export is Some)),
        None => if f.export is Some {
            Some((f.name@, i, Some(None), Some(None), true))
        } else {
            None
        },
    }
}

/// The properties of the first `n` fields, in field order.
pub open spec fn properties_of(fs: Seq<FieldDirectives>, n: int) -> Seq<PropertyView>
    decreases n,
{
    if n <= 0 {
        Seq::empty()
    } else {
        let rest = properties_of(fs, n - 1);
        match field_property(fs[n - 1], n - 1) {
            Some(p) => rest.push(p),
            None => rest,
        }
    }
}

/// Indices among the first `n` fields whose role is `r`.
pub open spec fn role_indices(fs: Seq<FieldDirectives>, r: FieldRole, n: int) -> Seq<usize>
    decreases n,
{
    if n <= 0 {
        Seq::empty()
    } else if fs[n - 1].role == r {
        role_indices(fs, r, n - 1).push((n - 1) as usize)
    } else {
        role_indices(fs, r, n - 1)
    }
}

/// Indices among the first `n` fields that are not the base handle.
pub open spec fn non_base_indices(fs: Seq<FieldDirectives>, n: int) -> Seq<usize>
    decreases n,
{
    if n <= 0 {
        Seq::empty()
    } else if fs[n - 1].role != FieldRole::Base {
        non_base_indices(fs, n - 1).push((n - 1) as usize)
    } else {
        non_base_indices(fs, n - 1)
    }
}

pub open spec fn option_name(n: Option<String>) -> Option<Seq<char>> {
    match n {
        Some(s) => Some(s@),
        None => None,
    }
}

/// The host class that a class without a `base` directive extends.
pub open spec fn default_base() -> Seq<char> {
    "RefCounted"@
}

/// What a descriptor assembled from `v` consists of, as plain values.
pub open spec fn assembled_view(v: ValidatedClass) -> (
    Seq<char>,
    Seq<char>,
    ConstructionPolicy,
    Seq<PropertyView>,
    Option<usize>,
    Seq<usize>,
    Seq<usize>,
    (bool, bool, bool),
) {
    let fs = v.fields@;
    (
        match v.directive.rename {
            Some(n) => n@,
            None => v.name@,
        },
        match v.directive.base {
            Some(b) => b@,
            None => default_base(),
        },
        v.policy,
        properties_of(fs, fs.len() as int),
        if role_indices(fs, FieldRole::Base, fs.len() as int).len() > 0 {
            Some(role_indices(fs, FieldRole::Base, fs.len() as int)[0])
        } else {
            None
        },
        role_indices(fs, FieldRole::OnReady, fs.len() as int),
        if v.policy == ConstructionPolicy::Generated {
            non_base_indices(fs, fs.len() as int)
        } else {
            Seq::empty()
        },
        (v.directive.tool, v.directive.editor_plugin, v.directive.hide),
    )
}

/// The same, read off a descriptor.
pub open spec fn descriptor_view(d: ClassDescriptor) -> (
    Seq<char>,
    Seq<char>,
    ConstructionPolicy,
    Seq<PropertyView>,
    Option<usize>,
    Seq<usize>,
    Seq<usize>,
    (bool, bool, bool),
) {
    (
        d.class_name@,
        d.base_class@,
        d.policy,
        d.properties@.map_values(|p: PropertyDescriptor| property_view(p)),
        d.base_field,
        d.onready_fields@,
        d.default_fields@,
        (d.tool, d.editor_plugin, d.hidden),
    )
}

fn copy_accessor(a: &Accessor) -> (r: Accessor)
    ensures
        accessor_view(r) == accessor_view(*a),
{
    match a {
        Accessor::Absent => Accessor::Absent,
        Accessor::Generated => Accessor::Generated,
        Accessor::Custom(n) => Accessor::Custom(n.clone()),
    }
}

fn copy_name(n: &Option<String>) -> (r: Option<String>)
    ensures
        option_name(r) == option_name(*n),
{
    match n {
        Some(s) => Some(s.clone()),
        None => None,
    }
}

/// Merges a validated directive set into the class descriptor. Properties
/// keep the order of the fields that declare them.
pub fn assemble(v: ValidatedClass) -> (d: ClassDescriptor)
    ensures
        descriptor_view(d) == assembled_view(v),
        d.fields == v.fields,
        d.source_name@ == v.name@,
{
    let ghost fs = v.fields@;
    let n = v.fields.len();
    let mut properties: Vec<PropertyDescriptor> = Vec::new();
    let mut base_field: Option<usize> = None;
    let mut onready: Vec<usize> = Vec::new();
    let mut defaults: Vec<usize> = Vec::new();
    let generated = v.policy == ConstructionPolicy::Generated;
    let mut i: usize = 0;
    while i < n
        invariant
            0 <= i <= n,
            n == fs.len(),
            fs == v.fields@,
            generated == (v.policy == ConstructionPolicy::Generated),
            properties@.map_values(|p: PropertyDescriptor| property_view(p)) == properties_of(fs, i as int),
            base_field == (if role_indices(fs, FieldRole::Base, i as int).len() > 0 {
                Some(role_indices(fs, FieldRole::Base, i as int)[0])
            } else {
                None::<usize>
            }),
            onready@ == role_indices(fs, FieldRole::OnReady, i as int),
            defaults@ == (if generated {
                non_base_indices(fs, i as int)
            } else {
                Seq::<usize>::empty()
            }),
        decreases n - i,
    {
        let f = &v.fields[i];
        let ghost before = properties@;
        let prop = match &f.var {
            Some(var) => Some(PropertyDescriptor {
                name: f.name.clone(),
                field: i,
                getter: copy_accessor(&var.getter),
                setter: copy_accessor(&var.setter),
                exported: f.export.is_some(),
            }),
            None => if f.export.is_some() {
                Some(PropertyDescriptor {
                    name: f.name.clone(),
                    field: i,
                    getter: Accessor::Generated,
                    setter: Accessor::Generated,
                    exported: true,
                })
            } else {
                None
            },
        };
        match prop {
            Some(p) => {
                proof {
                    assert(field_property(fs[i as int], i as int) == Some(property_view(p)));
                }
                properties.push(p);
                assert(properties@.map_values(|p: PropertyDescriptor| property_view(p)) =~= before.map_values(
                    |p: PropertyDescriptor| property_view(p),
                ).push(property_view(p)));
            },
            None => {},
        }
        if f.role == FieldRole::Base && base_field.is_none() {
            base_field = Some(i);
        }
        proof {
            if role_indices(fs, FieldRole::Base, i as int).len() > 0 {
                assert(role_indices(fs, FieldRole::Base, i + 1)[0] == role_indices(fs, FieldRole::Base, i as int)[0]);
            }
        }
        if f.role == FieldRole::OnReady {
            onready.push(i);
        }
        if generated && f.role != FieldRole::Base {
            defaults.push(i);
        }
        i = i + 1;
    }
    let class_name = match &v.directive.rename {
        Some(r) => r.clone(),
        None => v.name.clone(),
    };
    let base_class = match &v.directive.base {
        Some(b) => b.clone(),
        None => String::from_str("RefCounted"),
    };
    let tool = v.directive.tool;
    let editor_plugin = v.directive.editor_plugin;
    let hidden = v.directive.hide;
    let policy = v.policy;
    let source_name = v.name.clone();
    ClassDescriptor {
        class_name,
        source_name,
        base_class,
        policy,
        properties,
        fields: v.fields,
        base_field,
        onready_fields: onready,
        default_fields: defaults,
        tool,
        editor_plugin,
        hidden,
    }
}

/// Assembling is a function of the validated directive set: two descriptors
/// assembled from the same set are identical.
pub proof fn law_assembly_deterministic(v: ValidatedClass, d1: ClassDescriptor, d2: ClassDescriptor)
    requires
        descriptor_view(d1) == assembled_view(v),
        descriptor_view(d2) == assembled_view(v),
    ensures
        descriptor_view(d1) == descriptor_view(d2),
{
}

/// Properties come in the order in which their fields are declared: their
/// field indices strictly increase, each below the field count.
pub proof fn law_property_order(fs: Seq<FieldDirectives>, n: int)
    requires
        0 <= n <= fs.len(),
    ensures
        forall|i: int, j: int|
            0 <= i < j < properties_of(fs, n).len() ==> properties_of(fs, n)[i].1 < properties_of(fs, n)[j].1,
        forall|i: int| 0 <= i < properties_of(fs, n).len() ==> 0 <= #[trigger] properties_of(fs, n)[i].1 < n,
    decreases n,
{
    if n > 0 {
        law_property_order(fs, n - 1);
        let rest = properties_of(fs, n - 1);
        let cur = properties_of(fs, n);
        match field_property(fs[n - 1], n - 1) {
            Some(p) => {
                assert(cur == rest.push(p));
                assert(p.1 == n - 1);
                assert forall|i: int| 0 <= i < cur.len() implies 0 <= #[trigger] cur[i].1 < n by {
                    if i < rest.len() {
                        assert(cur[i] == rest[i]);
                    }
                }
                assert forall|i: int, j: int| 0 <= i < j < cur.len() implies cur[i].1 < cur[j].1 by {
                    assert(cur[i] == rest[i]);
                    if j < rest.len() {
                        assert(cur[j] == rest[j]);
                    }
                }
            },
            None => {
                assert(cur == rest);
            },
        }
    }
}

/// Every field that declares a property appears in the property list, with
/// that property.
pub proof fn law_every_property_listed(fs: Seq<FieldDirectives>, n: int, k: int)
    requires
        0 <= k < n <= fs.len(),
        field_property(fs[k], k) is Some,
    ensures
        properties_of(fs, n).contains(field_property(fs[k], k).unwrap()),
    decreases n,
{
    if k < n - 1 {
        law_every_property_listed(fs, n - 1, k);
        let p = field_property(fs[k], k).unwrap();
        let rest = properties_of(fs, n - 1);
        let w = choose|w: int| 0 <= w < rest.len() && rest[w] == p;
        assert(properties_of(fs, n)[w] == p);
    } else {
        let rest = properties_of(fs, n - 1);
        assert(properties_of(fs, n)[rest.len() as int] == field_property(fs[k], k).unwrap());
    }
}

/// Some attribute of `attrs` is named `w`.
pub open spec fn has_attr(attrs: Seq<Attribute>, w: Seq<char>) -> bool {
    exists|k: int| 0 <= k < attrs.len() && (#[trigger] attrs[k]).name@ == w
}

/// No role hints: the type decides.
pub open spec fn no_hints() -> RoleHints {
    RoleHints { base: false, no_base: false, onready: false, no_onready: false }
}

/// The hints that the field's hint attribute gives, if it has one.
pub open spec fn hints_given(f: Field, h: RoleHints) -> bool {
    &&& !has_attr(f.attrs@, "hint"@) ==> h == no_hints()
    &&& forall|k: int|
        0 <= k < f.attrs.len() && (#[trigger] f.attrs@[k]).name@ == "hint"@ ==> hint_attr_gives(f.attrs@[k], h)
}

/// The hint attribute `at` reads as the hints `h`.
pub open spec fn hint_attr_gives(at: Attribute, h: RoleHints) -> bool {
    exists|a: Seq<crate::attr::Arg>|
        crate::attr::args_of(at.args@, 0, at.args.len() as int, a) && #[trigger] crate::directive::role_hints_of(a, h)
}

/// The property attribute `at` reads as `v`.
pub open spec fn var_attr_gives(at: Attribute, v: VarDirective) -> bool {
    exists|a: Seq<crate::attr::Arg>|
        crate::attr::args_of(at.args@, 0, at.args.len() as int, a) && #[trigger] crate::directive::var_directive_of(
            at.args@,
            a,
            v,
        )
}

/// The default-value attribute `at` reads as `default = e`.
pub open spec fn init_attr_gives(at: Attribute, e: Seq<Tok>) -> bool {
    exists|a: Seq<crate::attr::Arg>|
        #[trigger] crate::attr::args_of(at.args@, 0, at.args.len() as int, a) && a.len() == 1 && a[0].key@ == "default"@
            && match a[0].value {
            crate::attr::ArgValue::Assign(x, y) => e == at.args@.subrange(x as int, y as int),
            _ => false,
        }
}

/// What each attribute of `f` named `var`, `export` or `init` says is what
/// `fd` holds.
pub open spec fn contents_given(f: Field, fd: FieldDirectives) -> bool {
    &&& forall|k: int|
        0 <= k < f.attrs.len() && (#[trigger] f.attrs@[k]).name@ == "var"@ ==> match fd.var {
            Some(v) => var_attr_gives(f.attrs@[k], v),
            None => false,
        }
    &&& forall|k: int|
        0 <= k < f.attrs.len() && (#[trigger] f.attrs@[k]).name@ == "export"@ ==> match fd.export {
            Some(h) => crate::export::export_gives(f.attrs@[k].args@, 0, f.attrs@[k].args.len() as int, h),
            None => false,
        }
    &&& forall|k: int|
        0 <= k < f.attrs.len() && (#[trigger] f.attrs@[k]).name@ == "init"@ ==> match fd.default_expr {
            Some(e) => init_attr_gives(f.attrs@[k], e@),
            None => false,
        }
}

/// `fd` is what the attributes and type of `f` resolve to.
pub open spec fn field_resolved(f: Field, fd: FieldDirectives) -> bool {
    &&& fd.name@ == f.name@
    &&& fd.var is Some == has_attr(f.attrs@, "var"@)
    &&& fd.export is Some == has_attr(f.attrs@, "export"@)
    &&& fd.default_expr is Some == has_attr(f.attrs@, "init"@)
    &&& contents_given(f, fd)
    &&& exists|h: RoleHints| #[trigger] hints_given(f, h) && role_of(h, f.ty@) == Ok::<FieldRole, ErrorKind>(fd.role)
}

/// The arguments of a default-value attribute are one `default = expr`.
pub open spec fn init_args_ok(a: Seq<crate::attr::Arg>) -> bool {
    a.len() == 1 && a[0].key@ == "default"@ && a[0].value is Assign
}

/// Reads `default = expr` and copies the expression.
pub fn parse_init_default(toks: &Vec<Tok>) -> (r: Result<Vec<Tok>, (usize, ErrorKind)>)
    ensures
        r is Ok <==> balanced(toks@, 0, toks.len() as int) && exists|a: Seq<crate::attr::Arg>|
            #[trigger] crate::attr::args_of(toks@, 0, toks.len() as int, a) && init_args_ok(a),
        r matches Ok(e) ==> exists|a: Seq<crate::attr::Arg>|
            #[trigger] crate::attr::args_of(toks@, 0, toks.len() as int, a) && a.len() == 1 && a[0].key@ == "default"@
                && match a[0].value {
                crate::attr::ArgValue::Assign(x, y) => e@ == toks@.subrange(x as int, y as int),
                _ => false,
            },
{
    let args = match crate::attr::parse_args(toks, 0, toks.len()) {
        Ok(a) => a,
        Err(crate::attr::ArgError::Unbalanced) => return Err((0, ErrorKind::UnbalancedBrackets)),
        Err(crate::attr::ArgError::Malformed(at)) => return Err((at, ErrorKind::MalformedArgument)),
    };
    assert(crate::attr::args_of(toks@, 0, toks.len() as int, args@));
    if args.len() != 1 {
        return Err((0, ErrorKind::MalformedValue));
    }
    assert(crate::attr::arg_matches(toks@, args@[0]) && args@[0].end <= toks.len());
    if !word_is(&args[0].key, "default") {
        return Err((args[0].at, ErrorKind::UnknownKey));
    }
    match args[0].value {
        crate::attr::ArgValue::Assign(x, y) => {
            assert(init_args_ok(args@));
            Ok(copy_range(toks, x, y))
        },
        _ => Err((args[0].at, ErrorKind::MalformedValue)),
    }
}

/// At most one attribute is named `w`.
pub open spec fn at_most_one(attrs: Seq<Attribute>, w: Seq<char>) -> bool {
    forall|i: int, j: int| 0 <= i < j < attrs.len() && (#[trigger] attrs[i]).name@ == w ==> (#[trigger] attrs[j]).name@ != w
}

/// The attribute's arguments balance and some reading of them is well formed
/// for the attribute's kind.
pub open spec fn attr_readable(at: Attribute) -> bool {
    let s = at.args@;
    let n = at.args.len() as int;
    &&& balanced(s, 0, n)
    &&& at.name@ == "var"@ ==> exists|a: Seq<crate::attr::Arg>|
        #[trigger] crate::attr::args_of(s, 0, n, a) && crate::directive::var_valid(s, a)
    &&& at.name@ == "export"@ ==> exists|h: ExportHint| #[trigger] crate::export::export_gives(s, 0, n, h)
    &&& at.name@ == "hint"@ ==> exists|a: Seq<crate::attr::Arg>|
        #[trigger] crate::attr::args_of(s, 0, n, a) && crate::directive::hint_valid(a)
    &&& at.name@ == "init"@ ==> exists|a: Seq<crate::attr::Arg>| #[trigger] crate::attr::args_of(s, 0, n, a) && init_args_ok(a)
    &&& at.name@ == "class"@ ==> exists|a: Seq<crate::attr::Arg>|
        #[trigger] crate::attr::args_of(s, 0, n, a) && crate::directive::class_valid(s, a)
}

/// A field whose attributes all read well, none repeated, and whose role is
/// decided under every reading of its hints.
pub open spec fn field_ok(f: Field) -> bool {
    &&& at_most_one(f.attrs@, "var"@)
    &&& at_most_one(f.attrs@, "export"@)
    &&& at_most_one(f.attrs@, "hint"@)
    &&& at_most_one(f.attrs@, "init"@)
    &&& forall|k: int|
        0 <= k < f.attrs.len() && is_field_attr((#[trigger] f.attrs@[k]).name@) ==> attr_readable(f.attrs@[k])
    &&& forall|h: RoleHints| #[trigger] hints_given(f, h) ==> role_of(h, f.ty@) is Ok
}

pub open spec fn is_field_attr(w: Seq<char>) -> bool {
    w == "var"@ || w == "export"@ || w == "hint"@ || w == "init"@
}

/// Resolves the attributes and role of field `f` (the field with index
/// `index`). Every error is reported, each as its own diagnostic.
pub fn resolve_field(f: &Field, index: usize) -> (r: Result<FieldDirectives, Vec<Diagnostic>>)
    ensures
        r matches Ok(fd) ==> field_resolved(*f, fd),
        r matches Err(ds) ==> ds.len() > 0 && forall|k: int| 0 <= k < ds.len() ==> #[trigger] ds[k].site == Site::Field(index),
        f.attrs.len() == 0 ==> (r matches Ok(fd) && role_of(no_hints(), f.ty@) == Ok::<FieldRole, ErrorKind>(fd.role)),
        field_ok(*f) ==> r is Ok,
{
    let mut diags: Vec<Diagnostic> = Vec::new();
    let mut var: Option<VarDirective> = None;
    let mut export: Option<ExportHint> = None;
    let mut hints: Option<RoleHints> = None;
    let mut default_expr: Option<Vec<Tok>> = None;
    let mut seen_var = false;
    let mut seen_export = false;
    let mut seen_hint = false;
    let mut seen_init = false;
    let site = Site::Field(index);
    let mut i: usize = 0;
    while i < f.attrs.len()
        invariant
            0 <= i <= f.attrs.len(),
            seen_var == has_attr(f.attrs@.subrange(0, i as int), "var"@),
            seen_export == has_attr(f.attrs@.subrange(0, i as int), "export"@),
            seen_hint == has_attr(f.attrs@.subrange(0, i as int), "hint"@),
            seen_init == has_attr(f.attrs@.subrange(0, i as int), "init"@),
            diags.len() == 0 ==> (var is Some == seen_var && export is Some == seen_export
                && default_expr is Some == seen_init && hints is Some == seen_hint),
            diags.len() == 0 ==> forall|k: int|
                0 <= k < i && (#[trigger] f.attrs@[k]).name@ == "var"@ ==> match var {
                    Some(v) => var_attr_gives(f.attrs@[k], v),
                    None => false,
                },
            diags.len() == 0 ==> forall|k: int|
                0 <= k < i && (#[trigger] f.attrs@[k]).name@ == "export"@ ==> match export {
                    Some(h) => crate::export::export_gives(f.attrs@[k].args@, 0, f.attrs@[k].args.len() as int, h),
                    None => false,
                },
            diags.len() == 0 ==> forall|k: int|
                0 <= k < i && (#[trigger] f.attrs@[k]).name@ == "init"@ ==> match default_expr {
                    Some(e) => init_attr_gives(f.attrs@[k], e@),
                    None => false,
                },
            diags.len() == 0 ==> (hints matches Some(h) ==> forall|k: int|
                0 <= k < i && (#[trigger] f.attrs@[k]).name@ == "hint"@ ==> hint_attr_gives(f.attrs@[k], h)),
            forall|k: int| 0 <= k < diags.len() ==> #[trigger] diags[k].site == site,
            site == Site::Field(index),
            i == 0 ==> diags.len() == 0 && hints is None,
            field_ok(*f) ==> diags.len() == 0,
        decreases f.attrs.len() - i,
    {
        let at = &f.attrs[i];
        let ghost prev = f.attrs@.subrange(0, i as int);
        let ghost next = f.attrs@.subrange(0, i + 1);
        proof {
            assert(next =~= prev.push(f.attrs@[i as int]));
            reveal_strlit("var");
            reveal_strlit("export");
            reveal_strlit("hint");
            reveal_strlit("init");
            assert("var"@[0] == 'v');
            assert("export"@[0] == 'e');
            assert("hint"@[0] == 'h');
            assert("init"@[0] == 'i');
            lemma_has_attr_push(prev, f.attrs@[i as int], "var"@);
            lemma_has_attr_push(prev, f.attrs@[i as int], "export"@);
            lemma_has_attr_push(prev, f.attrs@[i as int], "hint"@);
            lemma_has_attr_push(prev, f.attrs@[i as int], "init"@);
        }
        if word_is(&at.name, "var") {
            if seen_var {
                proof {
                    if field_ok(*f) {
                        let k = choose|k: int| 0 <= k < prev.len() && (#[trigger] prev[k]).name@ == "var"@;
                        assert(prev[k] == f.attrs@[k]);
                        assert(f.attrs@[k].name@ == "var"@ && f.attrs@[i as int].name@ == "var"@);
                    }
                }
                diags.push(Diagnostic::new(site, 0, ErrorKind::DuplicateDirective));
            } else {
                match parse_var_directive(&at.args) {
                    Ok(v) => {
                        proof {
                            assert forall|k: int| 0 <= k < i implies (#[trigger] f.attrs@[k]).name@ != "var"@ by {
                                assert(prev[k] == f.attrs@[k]);
                            }
                        }
                        assert(var_attr_gives(f.attrs@[i as int], v));
                        var = Some(v);
                    },
                    Err((t, kind)) => diags.push(Diagnostic::new(site, t, kind)),
                }
            }
            seen_var = true;
        } else if word_is(&at.name, "export") {
            if seen_export {
                proof {
                    if field_ok(*f) {
                        let k = choose|k: int| 0 <= k < prev.len() && (#[trigger] prev[k]).name@ == "export"@;
                        assert(prev[k] == f.attrs@[k]);
                        assert(f.attrs@[k].name@ == "export"@ && f.attrs@[i as int].name@ == "export"@);
                    }
                }
                diags.push(Diagnostic::new(site, 0, ErrorKind::DuplicateDirective));
            } else {
                match resolve_export(&at.args, 0, at.args.len()) {
                    Ok(h) => {
                        proof {
                            assert forall|k: int| 0 <= k < i implies (#[trigger] f.attrs@[k]).name@ != "export"@ by {
                                assert(prev[k] == f.attrs@[k]);
                            }
                        }
                        export = Some(h);
                    },
                    Err((t, kind)) => diags.push(Diagnostic::new(site, t, kind)),
                }
            }
            seen_export = true;
        } else if word_is(&at.name, "hint") {
            if seen_hint {
                proof {
                    if field_ok(*f) {
                        let k = choose|k: int| 0 <= k < prev.len() && (#[trigger] prev[k]).name@ == "hint"@;
                        assert(prev[k] == f.attrs@[k]);
                        assert(f.attrs@[k].name@ == "hint"@ && f.attrs@[i as int].name@ == "hint"@);
                    }
                }
                diags.push(Diagnostic::new(site, 0, ErrorKind::DuplicateDirective));
            } else {
                match parse_role_hints(&at.args) {
                    Ok(h) => {
                        proof {
                            assert forall|k: int| 0 <= k < i implies (#[trigger] f.attrs@[k]).name@ != "hint"@ by {
                                assert(prev[k] == f.attrs@[k]);
                            }
                        }
                        assert(hint_attr_gives(f.attrs@[i as int], h));
                        hints = Some(h);
                    },
                    Err((t, kind)) => diags.push(Diagnostic::new(site, t, kind)),
                }
            }
            seen_hint = true;
        } else if word_is(&at.name, "init") {
            if seen_init {
                proof {
                    if field_ok(*f) {
                        let k = choose|k: int| 0 <= k < prev.len() && (#[trigger] prev[k]).name@ == "init"@;
                        assert(prev[k] == f.attrs@[k]);
                        assert(f.attrs@[k].name@ == "init"@ && f.attrs@[i as int].name@ == "init"@);
                    }
                }
                diags.push(Diagnostic::new(site, 0, ErrorKind::DuplicateDirective));
            } else {
                match parse_init_default(&at.args) {
                    Ok(e) => {
                        proof {
                            assert forall|k: int| 0 <= k < i implies (#[trigger] f.attrs@[k]).name@ != "init"@ by {
                                assert(prev[k] == f.attrs@[k]);
                            }
                        }
                        assert(init_attr_gives(f.attrs@[i as int], e@));
                        default_expr = Some(e);
                    },
                    Err((t, kind)) => diags.push(Diagnostic::new(site, t, kind)),
                }
            }
            seen_init = true;
        }
        i = i + 1;
    }
    proof {
        assert(f.attrs@.subrange(0, f.attrs.len() as int) =~= f.attrs@);
    }
    let h = match hints {
        Some(h) => h,
        None => RoleHints { base: false, no_base: false, onready: false, no_onready: false },
    };
    assert(field_ok(*f) ==> hints_given(*f, h));
    let role = match classify_field(h, &f.ty) {
        Ok(role) => role,
        Err(kind) => {
            diags.push(Diagnostic::new(site, 0, kind));
            return Err(diags);
        },
    };
    if diags.len() > 0 {
        return Err(diags);
    }
    let fd = FieldDirectives { name: f.name.clone(), role, var, export, default_expr };
    assert(hints_given(*f, h));
    assert(f.attrs.len() == 0 ==> h == no_hints());
    Ok(fd)
}

proof fn lemma_has_attr_push(prev: Seq<Attribute>, x: Attribute, w: Seq<char>)
    ensures
        has_attr(prev.push(x), w) == (has_attr(prev, w) || x.name@ == w),
{
    let next = prev.push(x);
    if has_attr(prev, w) {
        let k = choose|k: int| 0 <= k < prev.len() && (#[trigger] prev[k]).name@ == w;
        assert(next[k] == prev[k]);
    }
    if x.name@ == w {
        assert(next[prev.len() as int] == x);
    }
    if has_attr(next, w) {
        let k = choose|k: int| 0 <= k < next.len() && (#[trigger] next[k]).name@ == w;
        if k < prev.len() {
            assert(next[k] == prev[k]);
        }
    }
}

/// No field carries an attribute, and at most one is the base handle by its type.
pub open spec fn unconfigured_fields(decl: ClassDecl) -> bool {
    &&& forall|i: int| 0 <= i < decl.fields.len() ==> (#[trigger] decl.fields@[i]).attrs.len() == 0
    &&& forall|i: int, j: int|
        0 <= i < j < decl.fields.len() && role_of(no_hints(), (#[trigger] decl.fields@[i]).ty@) == Ok::<
            FieldRole,
            ErrorKind,
        >(FieldRole::Base) ==> role_of(no_hints(), (#[trigger] decl.fields@[j]).ty@) != Ok::<FieldRole, ErrorKind>(
            FieldRole::Base,
        )
}

proof fn lemma_role_indices_grow(fs: Seq<FieldDirectives>, r: FieldRole, a: int, b: int)
    requires
        0 <= a <= b,
    ensures
        role_indices(fs, r, a).len() <= role_indices(fs, r, b).len(),
    decreases b - a,
{
    if a < b {
        lemma_role_indices_grow(fs, r, a, b - 1);
    }
}

/// With no two base handles among the first `n` fields, at most one index is listed.
proof fn lemma_single_base(fs: Seq<FieldDirectives>, n: int)
    requires
        0 <= n <= fs.len(),
        forall|i: int, j: int|
            0 <= i < j < n && (#[trigger] fs[i]).role == FieldRole::Base ==> (#[trigger] fs[j]).role != FieldRole::Base,
    ensures
        role_indices(fs, FieldRole::Base, n).len() <= 1,
        (forall|i: int| 0 <= i < n ==> (#[trigger] fs[i]).role != FieldRole::Base) ==> role_indices(
            fs,
            FieldRole::Base,
            n,
        ).len() == 0,
    decreases n,
{
    if n > 0 {
        lemma_single_base(fs, n - 1);
        if fs[n - 1].role == FieldRole::Base {
            assert forall|i: int| 0 <= i < n - 1 implies (#[trigger] fs[i]).role != FieldRole::Base by {
                if fs[i].role == FieldRole::Base {
                    assert(fs[n - 1].role != FieldRole::Base);
                }
            }
        }
    }
}

/// The class directive of a declaration without a class attribute.
pub open spec fn is_default_directive(d: ClassDirective) -> bool {
    d.base is None && !d.init && !d.no_init && !d.tool && !d.editor_plugin && !d.hide && d.rename is None
}

/// The class attribute `at` reads as the directive `d`.
pub open spec fn class_attr_gives(at: Attribute, d: ClassDirective) -> bool {
    exists|a: Seq<crate::attr::Arg>|
        crate::attr::args_of(at.args@, 0, at.args.len() as int, a) && #[trigger] crate::directive::class_directive_of(
            at.args@,
            a,
            d,
        )
}

/// `d` is what the declaration's class attribute says.
pub open spec fn class_given(decl: ClassDecl, d: ClassDirective) -> bool {
    &&& !has_attr(decl.attrs@, "class"@) ==> is_default_directive(d)
    &&& forall|k: int|
        0 <= k < decl.attrs.len() && (#[trigger] decl.attrs@[k]).name@ == "class"@ ==> class_attr_gives(
            decl.attrs@[k],
            d,
        )
}

/// The class attribute, if any, is unique and reads well.
pub open spec fn class_attrs_ok(decl: ClassDecl) -> bool {
    &&& at_most_one(decl.attrs@, "class"@)
    &&& forall|k: int| 0 <= k < decl.attrs.len() && (#[trigger] decl.attrs@[k]).name@ == "class"@ ==> attr_readable(decl.attrs@[k])
}

/// A declaration that compiles: its attributes read well, every reading
/// decides the construction policy, and no two fields are base handles
/// under any reading of their hints.
pub open spec fn declaration_ok(decl: ClassDecl, has_init_override: bool) -> bool {
    &&& class_attrs_ok(decl)
    &&& forall|d: ClassDirective| #[trigger] class_given(decl, d) ==> construction_of(d.init, d.no_init, has_init_override) is Ok
    &&& forall|i: int| 0 <= i < decl.fields.len() ==> field_ok(#[trigger] decl.fields@[i])
    &&& forall|i: int, j: int, hi: RoleHints, hj: RoleHints|
        0 <= i < j < decl.fields.len() && #[trigger] hints_given(decl.fields@[i], hi) && #[trigger] hints_given(decl.fields@[j], hj)
            && role_of(hi, decl.fields@[i].ty@) == Ok::<FieldRole, ErrorKind>(FieldRole::Base) ==> role_of(
            hj,
            decl.fields@[j].ty@,
        ) != Ok::<FieldRole, ErrorKind>(FieldRole::Base)
}

/// `v` is the validated directive set of `decl`: each part is what its
/// attributes resolve to, the construction policy is decided, and at most
/// one field is the base handle.
pub open spec fn validated_from(decl: ClassDecl, has_init_override: bool, v: ValidatedClass) -> bool {
    &&& v.name@ == decl.name@
    &&& class_given(decl, v.directive)
    &&& construction_of(v.directive.init, v.directive.no_init, has_init_override) == Ok::<
        ConstructionPolicy,
        ErrorKind,
    >(v.policy)
    &&& v.fields.len() == decl.fields.len()
    &&& forall|i: int| 0 <= i < v.fields.len() ==> field_resolved(decl.fields@[i], #[trigger] v.fields@[i])
    &&& role_indices(v.fields@, FieldRole::Base, v.fields.len() as int).len() <= 1
}

pub open spec fn has_kind(ds: Seq<Diagnostic>, site: Site, kind: ErrorKind) -> bool {
    exists|k: int| 0 <= k < ds.len() && #[trigger] ds[k] == Diagnostic { site, token: 0, kind }
}

fn default_directive() -> (d: ClassDirective)
    ensures
        is_default_directive(d),
{
    ClassDirective {
        base: None,
        init: false,
        no_init: false,
        tool: false,
        editor_plugin: false,
        hide: false,
        rename: None,
    }
}

/// Resolves the class attribute of `decl`, adding a diagnostic per error.
fn resolve_class_attrs(decl: &ClassDecl, diags: &mut Vec<Diagnostic>) -> (d: ClassDirective)
    ensures
        final(diags).len() >= old(diags).len(),
        forall|k: int| 0 <= k < old(diags).len() ==> #[trigger] final(diags)[k] == old(diags)[k],
        final(diags).len() == old(diags).len() ==> class_given(*decl, d),
        !has_attr(decl.attrs@, "class"@) ==> is_default_directive(d) && final(diags)@ == old(diags)@,
        class_attrs_ok(*decl) ==> final(diags)@ == old(diags)@,
{
    let ghost start = diags@;
    let mut dir = default_directive();
    let mut seen = false;
    let mut i: usize = 0;
    while i < decl.attrs.len()
        invariant
            0 <= i <= decl.attrs.len(),
            diags.len() >= start.len(),
            forall|k: int| 0 <= k < start.len() ==> #[trigger] diags@[k] == start[k],
            seen == has_attr(decl.attrs@.subrange(0, i as int), "class"@),
            !seen ==> is_default_directive(dir) && diags@ == start,
            class_attrs_ok(*decl) ==> diags@ == start,
            diags.len() == start.len() ==> forall|k: int|
                0 <= k < i && (#[trigger] decl.attrs@[k]).name@ == "class"@ ==> class_attr_gives(decl.attrs@[k], dir),
        decreases decl.attrs.len() - i,
    {
        let at = &decl.attrs[i];
        let ghost prev = decl.attrs@.subrange(0, i as int);
        proof {
            assert(decl.attrs@.subrange(0, i + 1) =~= prev.push(decl.attrs@[i as int]));
            lemma_has_attr_push(prev, decl.attrs@[i as int], "class"@);
        }
        if word_is(&at.name, "class") {
            if seen {
                proof {
                    if class_attrs_ok(*decl) {
                        let k = choose|k: int| 0 <= k < prev.len() && (#[trigger] prev[k]).name@ == "class"@;
                        assert(prev[k] == decl.attrs@[k]);
                        assert(decl.attrs@[k].name@ == "class"@ && decl.attrs@[i as int].name@ == "class"@);
                    }
                }
                diags.push(Diagnostic::new(Site::Class, 0, ErrorKind::DuplicateDirective));
            } else {
                proof {
                    assert forall|k: int| 0 <= k < i implies (#[trigger] decl.attrs@[k]).name@ != "class"@ by {
                        assert(prev[k] == decl.attrs@[k]);
                    }
                }
                match parse_class_directive(&at.args) {
                    Ok(d) => {
                        assert(class_attr_gives(decl.attrs@[i as int], d));
                        dir = d;
                    },
                    Err((t, kind)) => diags.push(Diagnostic::new(Site::Class, t, kind)),
                }
            }
            seen = true;
        }
        i = i + 1;
    }
    proof {
        assert(decl.attrs@.subrange(0, decl.attrs.len() as int) =~= decl.attrs@);
    }
    dir
}

/// Compiles one declaration into its class descriptor. `has_init_override`
/// says whether the declaration's trait impl block writes its own `init`.
/// Fails with every diagnostic found, never with none.
pub fn compile_class(decl: &ClassDecl, has_init_override: bool) -> (r: Result<ClassDescriptor, Vec<Diagnostic>>)
    ensures
        r matches Ok(d) ==> exists|v: ValidatedClass|
            #[trigger] validated_from(*decl, has_init_override, v) && descriptor_view(d) == assembled_view(v)
                && d.fields == v.fields && d.source_name@ == decl.name@,
        r matches Err(ds) ==> ds.len() > 0,
        !has_attr(decl.attrs@, "class"@) && !has_init_override ==> (r matches Err(ds) && has_kind(
            ds@,
            Site::Class,
            ErrorKind::AmbiguousConstruction,
        )),
        !has_attr(decl.attrs@, "class"@) && has_init_override && unconfigured_fields(*decl) ==> r is Ok,
        declaration_ok(*decl, has_init_override) ==> r is Ok,
{
    let mut diags: Vec<Diagnostic> = Vec::new();
    let dir = resolve_class_attrs(decl, &mut diags);
    let ghost after_class = diags@;
    let ghost mut amb_idx: int = 0;
    let policy = match resolve_construction(dir.init, dir.no_init, has_init_override) {
        Ok(p) => p,
        Err(kind) => {
            diags.push(Diagnostic::new(Site::Class, 0, kind));
            proof {
                amb_idx = diags.len() - 1;
            }
            assert(diags@[amb_idx] == Diagnostic { site: Site::Class, token: 0, kind });
            ConstructionPolicy::Disabled
        },
    };
    let ghost after_policy = diags@;
    assert(!has_attr(decl.attrs@, "class"@) && has_init_override ==> after_policy.len() == 0);
    assert(declaration_ok(*decl, has_init_override) ==> class_given(*decl, dir) && after_policy.len() == 0);
    assert(after_policy.len() == after_class.len() ==> construction_of(dir.init, dir.no_init, has_init_override)
        == Ok::<ConstructionPolicy, ErrorKind>(policy));
    assert(!has_attr(decl.attrs@, "class"@) && !has_init_override ==> 0 <= amb_idx < after_policy.len()
        && after_policy[amb_idx] == Diagnostic { site: Site::Class, token: 0, kind: ErrorKind::AmbiguousConstruction });
    let mut fds: Vec<FieldDirectives> = Vec::new();
    let mut fields_ok = true;
    let mut i: usize = 0;
    while i < decl.fields.len()
        invariant
            0 <= i <= decl.fields.len(),
            diags.len() >= after_policy.len(),
            forall|k: int| 0 <= k < after_policy.len() ==> #[trigger] diags@[k] == after_policy[k],
            fields_ok ==> fds.len() == i && diags@ == after_policy,
            !fields_ok ==> diags.len() > after_policy.len(),
            fields_ok ==> forall|j: int| 0 <= j < i ==> field_resolved(decl.fields@[j], #[trigger] fds@[j]),
            fields_ok ==> forall|j: int|
                0 <= j < i && decl.fields@[j].attrs.len() == 0 ==> role_of(no_hints(), decl.fields@[j].ty@) == Ok::<
                    FieldRole,
                    ErrorKind,
                >((#[trigger] fds@[j]).role),
            unconfigured_fields(*decl) ==> fields_ok,
            declaration_ok(*decl, has_init_override) ==> fields_ok,
        decreases decl.fields.len() - i,
    {
        match resolve_field(&decl.fields[i], i) {
            Ok(fd) => fds.push(fd),
            Err(ds) => {
                let mut k: usize = 0;
                while k < ds.len()
                    invariant
                        0 <= k <= ds.len(),
                        diags.len() >= after_policy.len(),
                        forall|q: int| 0 <= q < after_policy.len() ==> #[trigger] diags@[q] == after_policy[q],
                        k > 0 ==> diags.len() > after_policy.len(),
                        ds.len() > 0,
                    decreases ds.len() - k,
                {
                    diags.push(ds[k]);
                    k = k + 1;
                }
                fields_ok = false;
            },
        }
        i = i + 1;
    }
    if fields_ok {
        proof {
            if declaration_ok(*decl, has_init_override) {
                assert forall|i: int, j: int|
                    0 <= i < j < fds.len() && (#[trigger] fds@[i]).role == FieldRole::Base implies (#[trigger] fds@[j]).role
                        != FieldRole::Base by {
                    assert(field_resolved(decl.fields@[i], fds@[i]));
                    assert(field_resolved(decl.fields@[j], fds@[j]));
                    let hi = choose|h: RoleHints| #[trigger] hints_given(decl.fields@[i], h) && role_of(h, decl.fields@[i].ty@)
                        == Ok::<FieldRole, ErrorKind>(fds@[i].role);
                    let hj = choose|h: RoleHints| #[trigger] hints_given(decl.fields@[j], h) && role_of(h, decl.fields@[j].ty@)
                        == Ok::<FieldRole, ErrorKind>(fds@[j].role);
                }
                lemma_single_base(fds@, fds.len() as int);
            }
            if unconfigured_fields(*decl) {
                assert forall|i: int, j: int|
                    0 <= i < j < fds.len() && (#[trigger] fds@[i]).role == FieldRole::Base implies (#[trigger] fds@[j]).role
                        != FieldRole::Base by {
                    assert(decl.fields@[i].attrs.len() == 0);
                    assert(decl.fields@[j].attrs.len() == 0);
                }
                lemma_single_base(fds@, fds.len() as int);
            }
        }
        let mut count: usize = 0;
        let mut j: usize = 0;
        while j < fds.len()
            invariant
                0 <= j <= fds.len(),
                count == role_indices(fds@, FieldRole::Base, j as int).len(),
                count <= j,
                diags.len() >= after_policy.len(),
                forall|k: int| 0 <= k < after_policy.len() ==> #[trigger] diags@[k] == after_policy[k],
                diags.len() == after_policy.len() ==> count <= 1,
                fields_ok,
                role_indices(fds@, FieldRole::Base, fds.len() as int).len() <= 1 ==> diags@ == after_policy,
            decreases fds.len() - j,
        {
            if fds[j].role == FieldRole::Base {
                if count >= 1 {
                    proof {
                        lemma_role_indices_grow(fds@, FieldRole::Base, j + 1, fds.len() as int);
                    }
                    diags.push(Diagnostic::new(Site::Field(j), 0, ErrorKind::MultipleBaseFields));
                }
                count = count + 1;
            }
            j = j + 1;
        }
    }
    proof {
        if !has_attr(decl.attrs@, "class"@) && !has_init_override {
            assert(diags@[amb_idx] == after_policy[amb_idx]);
        }
    }
    if diags.len() > 0 {
        return Err(diags);
    }
    let v = ValidatedClass { name: decl.name.clone(), directive: dir, policy, fields: fds };
    assert(validated_from(*decl, has_init_override, v));
    let ghost gv = v;
    let d = assemble(v);
    assert(validated_from(*decl, has_init_override, gv) && descriptor_view(d) == assembled_view(gv) && d.fields
        == gv.fields && d.source_name@ == decl.name@);
    Ok(d)
}

} // verus!
