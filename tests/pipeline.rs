use godot_macros::api::{compile_api, compile_impl, check_accessors, detect_overrides, overrides_init, ImplBlock, ImplDescriptor, Lifecycle, Method};
use godot_macros::attr::{parse_args, ArgError, ArgValue};
use godot_macros::class::{compile_class, resolve_field, ClassDecl, Field};
use godot_macros::diag::{Diagnostic, ErrorKind, Site};
use godot_macros::directive::{parse_class_directive, parse_role_hints, parse_var_directive, Accessor, Attribute};
use godot_macros::export::{resolve_export, shorthand, ExportHint, HintKind};
use godot_macros::hint::{parse_labels, parse_range, resolve_enum_keys};
use godot_macros::model::{classify_field, resolve_construction, ConstructionPolicy, FieldRole, RoleHints};
use godot_macros::text::{parse_decimal, word_is};
use godot_macros::tokens::{split_arguments, Delim, Tok};

/// Splits source text into flat tokens.
fn toks(src: &str) -> Vec<Tok> {
    let cs: Vec<char> = src.chars().collect();
    let mut out = Vec::new();
    let mut i = 0;
    while i < cs.len() {
        let c = cs[i];
        if c.is_whitespace() {
            i += 1;
        } else if c.is_alphabetic() || c == '_' {
            let s = i;
            while i < cs.len() && (cs[i].is_alphanumeric() || cs[i] == '_') {
                i += 1;
            }
            out.push(Tok::Ident(cs[s..i].iter().collect()));
        } else if c.is_ascii_digit() {
            let s = i;
            while i < cs.len() && (cs[i].is_ascii_digit() || cs[i] == '.') {
                i += 1;
            }
            out.push(Tok::Lit(cs[s..i].iter().collect()));
        } else if c == '"' {
            let s = i;
            i += 1;
            while cs[i] != '"' {
                i += 1;
            }
            i += 1;
            out.push(Tok::Lit(cs[s..i].iter().collect()));
        } else {
            out.push(match c {
                '(' => Tok::Open(Delim::Paren),
                '[' => Tok::Open(Delim::Bracket),
                '{' => Tok::Open(Delim::Brace),
                ')' => Tok::Close(Delim::Paren),
                ']' => Tok::Close(Delim::Bracket),
                '}' => Tok::Close(Delim::Brace),
                _ => Tok::Punct(c),
            });
            i += 1;
        }
    }
    out
}

fn attr(name: &str, args: &str) -> Attribute {
    Attribute { name: name.to_string(), args: toks(args) }
}

fn field(name: &str, ty: &str, attrs: Vec<Attribute>) -> Field {
    Field { name: name.to_string(), ty: toks(ty), attrs }
}

fn export(src: &str) -> Result<ExportHint, (usize, ErrorKind)> {
    let t = toks(src);
    resolve_export(&t, 0, t.len())
}

fn kinds(ds: &[Diagnostic]) -> Vec<ErrorKind> {
    ds.iter().map(|d| d.kind).collect()
}

#[test]
fn range_or_greater_expands_to_open_upper_triple() {
    match export("range = (0.0, 10.0, or_greater)") {
        Ok(ExportHint::Range(r)) => {
            assert!(!r.min.negative);
            assert_eq!(r.min.text, "0.0");
            assert_eq!(r.max.text, "10.0");
            assert!(r.or_greater);
            assert!(!r.or_less);
            assert!(r.step.is_none());
        },
        other => panic!("unexpected {:?}", other),
    }
}

#[test]
fn range_with_step_negative_bound_and_options() {
    let t = toks("-5, 5, 0.5, or_less, degrees, hide_slider");
    let r = parse_range(&t, 0, t.len()).unwrap();
    assert!(r.min.negative);
    assert_eq!(r.min.text, "5");
    assert_eq!(r.step.unwrap().text, "0.5");
    assert!(r.or_less && r.degrees && r.hide_slider);
    assert!(!r.or_greater && !r.exp && !r.radians);
}

#[test]
fn range_rejects_unknown_option_and_missing_bound() {
    let t = toks("0, 10, sideways");
    assert!(parse_range(&t, 0, t.len()).is_none());
    let t = toks("0");
    assert!(parse_range(&t, 0, t.len()).is_none());
    let t = toks("0, 10, 1, 2");
    assert!(parse_range(&t, 0, t.len()).is_none());
}

#[test]
fn enum_keys_resume_after_explicit_key() {
    match export("enum = (A, B, C = 5, D)") {
        Ok(ExportHint::Enum(es)) => {
            let names: Vec<&str> = es.iter().map(|e| e.name.as_str()).collect();
            let keys: Vec<i64> = es.iter().map(|e| e.key).collect();
            assert_eq!(names, vec!["A", "B", "C", "D"]);
            assert_eq!(keys, vec![0, 1, 5, 6]);
        },
        other => panic!("unexpected {:?}", other),
    }
    assert_eq!(resolve_enum_keys(&vec![None, None, Some(5), None]), Ok(vec![0, 1, 5, 6]));
}

#[test]
fn enum_keys_must_strictly_increase() {
    assert_eq!(resolve_enum_keys(&vec![Some(5), Some(3)]), Err(1));
    assert_eq!(resolve_enum_keys(&vec![Some(2), None, Some(3)]), Err(2));
    assert_eq!(resolve_enum_keys(&vec![Some(i64::MAX), None]), Err(1));
    assert_eq!(resolve_enum_keys(&vec![]), Ok(vec![]));
    assert_eq!(resolve_enum_keys(&vec![Some(-3), None]), Ok(vec![-3, -2]));
    match export("enum = (A = 5, B = 3)") {
        Err((_, kind)) => assert_eq!(kind, ErrorKind::EnumKeysNotIncreasing),
        other => panic!("unexpected {:?}", other),
    }
}

#[test]
fn comma_inside_brackets_does_not_split_directive() {
    match export("flags = (A = 1, B = 2)") {
        Ok(ExportHint::Flags(ls)) => {
            assert_eq!(ls.len(), 2);
            assert_eq!(ls[0].name, "A");
            assert_eq!(ls[0].key, Some(1));
            assert_eq!(ls[1].name, "B");
            assert_eq!(ls[1].key, Some(2));
        },
        other => panic!("unexpected {:?}", other),
    }
}

#[test]
fn angle_brackets_do_not_nest() {
    let t = toks("a = Foo<B, C>, d");
    let segs = split_arguments(&t, 0, t.len()).unwrap();
    assert_eq!(segs.len(), 3);
    let t = toks("a = (B, C), d");
    assert_eq!(split_arguments(&t, 0, t.len()).unwrap().len(), 2);
    let t = toks("a = [B, {C, D}], d");
    assert_eq!(split_arguments(&t, 0, t.len()).unwrap().len(), 2);
}

#[test]
fn unbalanced_brackets_are_reported() {
    let t = toks("a = (b");
    assert!(split_arguments(&t, 0, t.len()).is_none());
    let t = toks("a), (b");
    assert!(split_arguments(&t, 0, t.len()).is_none());
    assert_eq!(parse_args(&t, 0, t.len()).unwrap_err(), ArgError::Unbalanced);
    match export("range = (0, 1") {
        Err((0, kind)) => assert_eq!(kind, ErrorKind::UnbalancedBrackets),
        other => panic!("unexpected {:?}", other),
    }
}

#[test]
fn argument_shapes() {
    let t = toks("a, b = 1, c(x, y),");
    let args = parse_args(&t, 0, t.len()).unwrap();
    assert_eq!(args.len(), 3);
    assert_eq!(args[0].key, "a");
    assert_eq!(args[0].value, ArgValue::Flag);
    assert_eq!(args[1].value, ArgValue::Assign(4, 5));
    assert_eq!(args[2].value, ArgValue::Call(8, 11));
    let t = toks("a, , b");
    assert_eq!(parse_args(&t, 0, t.len()).unwrap_err(), ArgError::Malformed(2));
    let t = toks("1 = a");
    assert_eq!(parse_args(&t, 0, t.len()).unwrap_err(), ArgError::Malformed(0));
}

#[test]
fn unknown_shorthand_is_an_error() {
    match export("sparkle") {
        Err((0, kind)) => assert_eq!(kind, ErrorKind::UnknownShorthand),
        other => panic!("unexpected {:?}", other),
    }
    assert_eq!(shorthand(&"exp_easing".to_string()), Some(HintKind::ExpEasing));
    assert_eq!(shorthand(&"flags_2d_physics".to_string()), Some(HintKind::Flags2dPhysics));
    assert_eq!(shorthand(&"ranges".to_string()), None);
}

#[test]
fn two_export_shorthands_are_a_duplicate() {
    match export("multiline, file") {
        Err((_, kind)) => assert_eq!(kind, ErrorKind::DuplicateDirective),
        other => panic!("unexpected {:?}", other),
    }
}

#[test]
fn other_export_shorthands() {
    assert!(matches!(export(""), Ok(ExportHint::Inferred)));
    match export("file = \"*.png\"") {
        Ok(ExportHint::File { global, filter }) => {
            assert!(!global);
            assert_eq!(filter.unwrap(), "\"*.png\"");
        },
        other => panic!("unexpected {:?}", other),
    }
    assert!(matches!(export("global_file"), Ok(ExportHint::File { global: true, filter: None })));
    assert!(matches!(export("global_dir"), Ok(ExportHint::Dir { global: true })));
    assert!(matches!(export("multiline"), Ok(ExportHint::Plain(HintKind::Multiline))));
    assert!(matches!(export("placeholder = \"name\""), Ok(ExportHint::Placeholder(_))));
    assert!(matches!(export("dir = 3"), Err((0, ErrorKind::MalformedValue))));
    assert!(matches!(export("range"), Err((0, ErrorKind::MalformedValue))));
}

#[test]
fn labels_read_names_and_keys() {
    let t = toks("X, Y = -4");
    let ls = parse_labels(&t, 0, t.len()).unwrap();
    assert_eq!(ls[0].key, None);
    assert_eq!(ls[1].key, Some(-4));
    let t = toks("X = y");
    assert!(parse_labels(&t, 0, t.len()).is_err());
}

#[test]
fn decimal_reading() {
    assert_eq!(parse_decimal(&"42".to_string()), Some(42));
    assert_eq!(parse_decimal(&"9223372036854775807".to_string()), Some(i64::MAX));
    assert_eq!(parse_decimal(&"9223372036854775808".to_string()), None);
    assert_eq!(parse_decimal(&"4a".to_string()), None);
    assert_eq!(parse_decimal(&"".to_string()), None);
    assert!(word_is(&"base".to_string(), "base"));
    assert!(!word_is(&"bases".to_string(), "base"));
}

#[test]
fn construction_policy_rules() {
    assert_eq!(resolve_construction(true, false, false), Ok(ConstructionPolicy::Generated));
    assert_eq!(resolve_construction(false, true, false), Ok(ConstructionPolicy::Disabled));
    assert_eq!(resolve_construction(false, false, true), Ok(ConstructionPolicy::UserProvided));
    assert_eq!(resolve_construction(false, false, false), Err(ErrorKind::AmbiguousConstruction));
    assert_eq!(resolve_construction(true, true, false), Err(ErrorKind::ConflictingConstruction));
    assert_eq!(resolve_construction(true, false, true), Err(ErrorKind::ConflictingConstruction));
}

#[test]
fn declaration_without_attributes_is_ambiguous() {
    let decl = ClassDecl {
        name: "Plain".to_string(),
        attrs: vec![],
        fields: vec![field("x", "i64", vec![]), field("y", "f32", vec![])],
    };
    let ds = compile_class(&decl, false).unwrap_err();
    assert!(ds.contains(&Diagnostic { site: Site::Class, token: 0, kind: ErrorKind::AmbiguousConstruction }));
    let empty = ClassDecl { name: "Empty".to_string(), attrs: vec![], fields: vec![] };
    assert_eq!(kinds(&compile_class(&empty, false).unwrap_err()), vec![ErrorKind::AmbiguousConstruction]);
    assert!(compile_class(&empty, true).is_ok());
}

#[test]
fn generated_init_with_base_and_ranged_health() {
    let decl = ClassDecl {
        name: "Player".to_string(),
        attrs: vec![attr("class", "init")],
        fields: vec![
            field("base", "Base<Node>", vec![]),
            field("health", "f64", vec![attr("export", "range = (0, 100)")]),
        ],
    };
    let d = compile_class(&decl, false).unwrap();
    assert_eq!(d.policy, ConstructionPolicy::Generated);
    assert_eq!(d.properties.len(), 1);
    assert_eq!(d.properties[0].name, "health");
    assert!(matches!(d.properties[0].getter, Accessor::Generated));
    assert!(matches!(d.properties[0].setter, Accessor::Generated));
    match &d.fields[1].export {
        Some(ExportHint::Range(r)) => {
            assert_eq!(r.min.text, "0");
            assert_eq!(r.max.text, "100");
            assert!(!r.or_greater && !r.or_less);
        },
        other => panic!("unexpected {:?}", other),
    }
    assert_eq!(d.base_field, Some(0));
    assert_eq!(d.default_fields, vec![1]);
    assert_eq!(d.class_name, "Player");
    assert_eq!(d.base_class, "RefCounted");
}

#[test]
fn base_hint_overrides_type_pattern() {
    let decl = ClassDecl {
        name: "Holder".to_string(),
        attrs: vec![attr("class", "no_init, base = Node")],
        fields: vec![
            field("owner", "Gd<Node>", vec![attr("hint", "base")]),
            field("other", "Base<Node>", vec![attr("hint", "no_base")]),
        ],
    };
    let d = compile_class(&decl, false).unwrap();
    assert_eq!(d.base_field, Some(0));
    assert_eq!(d.fields[1].role, FieldRole::Plain);
    assert_eq!(d.base_class, "Node");
    assert_eq!(d.policy, ConstructionPolicy::Disabled);
    let hints = RoleHints { base: true, no_base: false, onready: false, no_onready: false };
    assert_eq!(classify_field(hints, &toks("Gd<Node>")), Ok(FieldRole::Base));
}

#[test]
fn field_roles_from_type_pattern() {
    let none = RoleHints { base: false, no_base: false, onready: false, no_onready: false };
    assert_eq!(classify_field(none, &toks("Base<Node>")), Ok(FieldRole::Base));
    assert_eq!(classify_field(none, &toks("godot::obj::Base<Node>")), Ok(FieldRole::Base));
    assert_eq!(classify_field(none, &toks("OnReady<Gd<Node>>")), Ok(FieldRole::OnReady));
    assert_eq!(classify_field(none, &toks("Gd<Base>")), Ok(FieldRole::Plain));
    assert_eq!(classify_field(none, &toks("i32")), Ok(FieldRole::Plain));
    let clash = RoleHints { base: true, no_base: true, onready: false, no_onready: false };
    assert_eq!(classify_field(clash, &toks("i32")), Err(ErrorKind::ConflictingRoleHints));
    let onready = RoleHints { base: false, no_base: false, onready: true, no_onready: false };
    assert_eq!(classify_field(onready, &toks("Base<Node>")), Ok(FieldRole::OnReady));
}

#[test]
fn assembling_twice_gives_identical_descriptors() {
    let decl = ClassDecl {
        name: "Twice".to_string(),
        attrs: vec![attr("class", "init, tool, rename = Renamed")],
        fields: vec![
            field("a", "i32", vec![attr("var", "")]),
            field("b", "OnReady<Gd<Node>>", vec![]),
            field("c", "i32", vec![attr("export", "enum = (X, Y)")]),
        ],
    };
    let d1 = compile_class(&decl, false).unwrap();
    let d2 = compile_class(&decl, false).unwrap();
    assert_eq!(format!("{:?}", d1), format!("{:?}", d2));
    assert_eq!(d1.class_name, "Renamed");
    assert_eq!(d1.source_name, "Twice");
    assert!(d1.tool && !d1.editor_plugin && !d1.hidden);
    assert_eq!(d1.onready_fields, vec![1]);
}

#[test]
fn property_order_follows_field_order() {
    let decl = ClassDecl {
        name: "Ordered".to_string(),
        attrs: vec![attr("class", "no_init")],
        fields: vec![
            field("zeta", "i32", vec![attr("var", "")]),
            field("skip", "i32", vec![]),
            field("alpha", "i32", vec![attr("export", ""), attr("var", "get")]),
            field("mid", "i32", vec![attr("export", "multiline")]),
        ],
    };
    let d = compile_class(&decl, false).unwrap();
    let names: Vec<&str> = d.properties.iter().map(|p| p.name.as_str()).collect();
    let fields: Vec<usize> = d.properties.iter().map(|p| p.field).collect();
    assert_eq!(names, vec!["zeta", "alpha", "mid"]);
    assert_eq!(fields, vec![0, 2, 3]);
    assert!(matches!(d.properties[1].setter, Accessor::Absent));
    assert!(d.properties[1].exported && !d.properties[0].exported);
    assert!(d.default_fields.is_empty());
}

#[test]
fn var_accessors() {
    let v = parse_var_directive(&toks("")).unwrap();
    assert!(matches!(v.getter, Accessor::Generated) && matches!(v.setter, Accessor::Generated));
    let v = parse_var_directive(&toks("get")).unwrap();
    assert!(matches!(v.getter, Accessor::Generated) && matches!(v.setter, Accessor::Absent));
    let v = parse_var_directive(&toks("get = read_it, set")).unwrap();
    match v.getter {
        Accessor::Custom(n) => assert_eq!(n, "read_it"),
        other => panic!("unexpected {:?}", other),
    }
    assert!(matches!(parse_var_directive(&toks("get, get")), Err((2, ErrorKind::DuplicateDirective))));
    assert!(matches!(parse_var_directive(&toks("fetch")), Err((0, ErrorKind::UnknownKey))));
    assert!(matches!(parse_var_directive(&toks("get = 3")), Err((0, ErrorKind::MalformedValue))));
}

#[test]
fn class_directive_errors() {
    assert!(matches!(parse_class_directive(&toks("base = A, base = B")), Err((4, ErrorKind::DuplicateDirective))));
    assert!(matches!(parse_class_directive(&toks("colour")), Err((0, ErrorKind::UnknownKey))));
    assert!(matches!(parse_class_directive(&toks("init = 1")), Err((0, ErrorKind::MalformedValue))));
    let d = parse_class_directive(&toks("editor_plugin, hide, tool")).unwrap();
    assert!(d.editor_plugin && d.hide && d.tool && !d.init);
    assert!(matches!(parse_role_hints(&toks("sideways")), Err((0, ErrorKind::UnknownKey))));
}

#[test]
fn conflicts_are_all_reported() {
    let decl = ClassDecl {
        name: "Broken".to_string(),
        attrs: vec![attr("class", "init, no_init")],
        fields: vec![
            field("a", "Base<Node>", vec![]),
            field("b", "Base<Node>", vec![]),
            field("c", "i32", vec![attr("export", "sparkle")]),
        ],
    };
    let ds = compile_class(&decl, false).unwrap_err();
    assert!(kinds(&ds).contains(&ErrorKind::ConflictingConstruction));
    assert!(kinds(&ds).contains(&ErrorKind::UnknownShorthand));
    let two_bases = ClassDecl {
        name: "TwoBases".to_string(),
        attrs: vec![attr("class", "init")],
        fields: vec![field("a", "Base<Node>", vec![]), field("b", "Base<Node>", vec![])],
    };
    let ds = compile_class(&two_bases, false).unwrap_err();
    assert_eq!(ds, vec![Diagnostic { site: Site::Field(1), token: 0, kind: ErrorKind::MultipleBaseFields }]);
    let generated_and_override = ClassDecl {
        name: "Both".to_string(),
        attrs: vec![attr("class", "init")],
        fields: vec![],
    };
    assert_eq!(kinds(&compile_class(&generated_and_override, true).unwrap_err()), vec![ErrorKind::ConflictingConstruction]);
}

#[test]
fn field_default_expression_and_duplicates() {
    let f = field("speed", "f32", vec![attr("init", "default = 2.5")]);
    let fd = resolve_field(&f, 3).unwrap();
    assert_eq!(fd.default_expr.unwrap().len(), 1);
    let f = field("speed", "f32", vec![attr("var", ""), attr("var", "")]);
    let ds = resolve_field(&f, 3).unwrap_err();
    assert_eq!(ds, vec![Diagnostic { site: Site::Field(3), token: 0, kind: ErrorKind::DuplicateDirective }]);
}

#[test]
fn api_functions_signals_and_overrides() {
    let ms = vec![
        Method { name: "jump".to_string(), params: 0, receiver_mut: false, attrs: vec![attr("func", "")] },
        Method { name: "hit".to_string(), params: 0, receiver_mut: false, attrs: vec![attr("signal", "")] },
        Method { name: "get_hp".to_string(), params: 0, receiver_mut: false, attrs: vec![attr("func", "rename = hp")] },
        Method { name: "helper".to_string(), params: 1, receiver_mut: false, attrs: vec![] },
    ];
    let api = compile_api(&ms).unwrap();
    assert_eq!(api.functions.len(), 2);
    assert_eq!(api.functions[1].exposed, "hp");
    assert!(!api.functions[0].receiver_mut);
    assert_eq!(api.signals, vec!["hit".to_string()]);
    let bad = vec![Method { name: "s".to_string(), params: 2, receiver_mut: false, attrs: vec![attr("signal", "")] }];
    assert_eq!(kinds(&compile_api(&bad).unwrap_err()), vec![ErrorKind::MalformedValue]);

    let block = ImplBlock {
        trait_name: Some("INode".to_string()),
        methods: vec![
            Method { name: "ready".to_string(), params: 0, receiver_mut: false, attrs: vec![] },
            Method { name: "custom".to_string(), params: 0, receiver_mut: false, attrs: vec![] },
            Method { name: "init".to_string(), params: 1, receiver_mut: false, attrs: vec![] },
        ],
    };
    let ov = detect_overrides(&block.methods);
    assert_eq!(ov, vec![Lifecycle::Ready, Lifecycle::Init]);
    match compile_impl(&block) {
        Ok(ImplDescriptor::Overrides(o)) => assert_eq!(o, ov),
        other => panic!("unexpected {:?}", other),
    }
    let inherent = ImplBlock { trait_name: None, methods: ms };
    match compile_impl(&inherent) {
        Ok(ImplDescriptor::Api(a)) => assert_eq!(a.signals, vec!["hit".to_string()]),
        other => panic!("unexpected {:?}", other),
    }
    assert!(overrides_init(&ov));
    assert!(!overrides_init(&vec![Lifecycle::Process]));
}

#[test]
fn custom_accessor_must_be_exposed() {
    let decl = ClassDecl {
        name: "Acc".to_string(),
        attrs: vec![attr("class", "init")],
        fields: vec![field("hp", "i32", vec![attr("var", "get = get_hp")])],
    };
    let d = compile_class(&decl, false).unwrap();
    let none = compile_api(&vec![]).unwrap();
    assert_eq!(check_accessors(&d, &none), vec![Diagnostic { site: Site::Field(0), token: 0, kind: ErrorKind::MissingGetter }]);
    let with = compile_api(&vec![Method { name: "get_hp".to_string(), params: 0, receiver_mut: false, attrs: vec![attr("func", "")] }]).unwrap();
    assert!(check_accessors(&d, &with).is_empty());
}

#[test]
fn diagnostic_messages() {
    let d = Diagnostic::new(Site::Class, 0, ErrorKind::AmbiguousConstruction);
    assert!(d.message().contains("init"));
    assert_ne!(Diagnostic::new(Site::Class, 0, ErrorKind::UnknownKey).message(), d.message());
}

#[test]
fn malformed_func_attribute_is_reported_at_its_method() {
    let ms = vec![
        Method { name: "ok".to_string(), params: 0, receiver_mut: true, attrs: vec![attr("func", "")] },
        Method { name: "bad".to_string(), params: 0, receiver_mut: false, attrs: vec![attr("func", "foo")] },
    ];
    let ds = compile_api(&ms).unwrap_err();
    assert_eq!(ds.len(), 1);
    assert_eq!(ds[0].site, Site::Method(1));
    let good = vec![Method { name: "ok".to_string(), params: 0, receiver_mut: true, attrs: vec![attr("func", "")] }];
    assert!(compile_api(&good).unwrap().functions[0].receiver_mut);
}

#[test]
fn default_expression_is_copied_exactly() {
    let f = field("items", "Vec<i64>", vec![attr("init", "default = vec![1, 2]")]);
    let fd = resolve_field(&f, 0).unwrap();
    let e = fd.default_expr.unwrap();
    assert_eq!(e.len(), toks("vec![1, 2]").len());
    assert!(matches!(&e[0], Tok::Ident(n) if n == "vec"));
    let f = field("m", "i32", vec![attr("init", "value = 3")]);
    assert!(resolve_field(&f, 0).is_err());
}

#[test]
fn missing_setter_is_named() {
    let decl = ClassDecl {
        name: "Acc2".to_string(),
        attrs: vec![attr("class", "init")],
        fields: vec![field("hp", "i32", vec![attr("var", "get, set = put_hp")])],
    };
    let d = compile_class(&decl, false).unwrap();
    let none = compile_api(&vec![]).unwrap();
    assert_eq!(check_accessors(&d, &none), vec![Diagnostic { site: Site::Field(0), token: 0, kind: ErrorKind::MissingSetter }]);
}
