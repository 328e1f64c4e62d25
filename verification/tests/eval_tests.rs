use flaky::eval::{json_to_value, parse_type};
use flaky::option::FloatText;
use flaky::{demo_options, JsonNumber, JsonValue, NixEvaluator, OptionType, OptionValue, SchemaStore, StringMap};

fn obj(members: Vec<(&str, JsonValue)>) -> JsonValue {
    let mut m = StringMap::new();
    for (k, v) in members {
        m.insert(k.to_string(), v);
    }
    JsonValue::Object(m)
}

fn s(x: &str) -> JsonValue {
    JsonValue::String(x.to_string())
}

fn num_json(n: i64) -> JsonValue {
    JsonValue::Number(JsonNumber { as_i64: Some(n), as_f64: Some(FloatText { plain: n.to_string(), fixed: format!("{:.2}", n as f64), debug: format!("{:?}", n as f64) }) })
}

#[test]
fn demo_catalogue() {
    let opts = demo_options();
    assert_eq!(opts.len(), 22);
    assert_eq!(opts[0].name, "boot.loader.grub.enable");
    assert_eq!(opts[21].name, "nix.gc.dates");
    assert_eq!(opts[1].default, Some(OptionValue::Str("nodev".into())));
    assert_eq!(opts[1].example, Some(OptionValue::Str("/dev/sda".into())));
    assert_eq!(opts[10].name, "services.openssh.permitRootLogin");
    assert_eq!(opts[10].default, Some(OptionValue::Str("prohibit-password".into())));
    assert_eq!(
        opts[10].option_type,
        OptionType::Enum {
            values: vec![
                "yes".into(), "without-password".into(), "forced-commands-only".into(),
                "prohibit-password".into(), "no".into(),
            ]
        }
    );
    assert_eq!(opts[8].example, Some(OptionValue::List(vec![OptionValue::Int(22), OptionValue::Int(80), OptionValue::Int(443)])));
    for o in &opts {
        assert!(o.declared);
        assert!(o.default.as_ref().unwrap().type_matches(&o.option_type));
    }
    let store = SchemaStore::from_options(opts);
    assert_eq!(store.len(), 22);
    assert_eq!(
        store.category_names(),
        vec!["boot", "environment", "i18n", "networking", "nix", "services", "time", "users"]
    );
}

#[test]
fn types_from_json() {
    assert_eq!(parse_type(&obj(vec![("name", s("bool"))])), OptionType::Bool);
    assert_eq!(parse_type(&obj(vec![("name", s("str"))])), OptionType::Str);
    let e = obj(vec![("name", s("enum")), ("functor", obj(vec![("payload", obj(vec![("values", JsonValue::Array(vec![s("a"), num_json(3), s("b")]))]))]))]);
    match parse_type(&e) {
        OptionType::Enum { values } => assert!(values.len() <= 2),
        other => panic!("{other:?}"),
    }
    assert_eq!(parse_type(&s("x")), OptionType::Unknown { type_str: "unknown".into() });
}

#[test]
fn values_from_json() {
    assert_eq!(json_to_value(&JsonValue::Bool(true)), Some(OptionValue::Bool(true)));
    assert_eq!(json_to_value(&num_json(5)), Some(OptionValue::Int(5)));
    assert_eq!(json_to_value(&JsonValue::Null), Some(OptionValue::Null));
    assert_eq!(
        json_to_value(&JsonValue::Array(vec![s("a"), JsonValue::Bool(false)])),
        Some(OptionValue::List(vec![OptionValue::Str("a".into()), OptionValue::Bool(false)]))
    );
    let f = FloatText { plain: "1.5".into(), fixed: "1.50".into(), debug: "1.5".into() };
    let num = JsonValue::Number(JsonNumber { as_i64: None, as_f64: Some(f.clone()) });
    assert_eq!(json_to_value(&num), Some(OptionValue::Float(f)));
    let bad = JsonValue::Number(JsonNumber { as_i64: None, as_f64: None });
    assert_eq!(json_to_value(&bad), None);
}

#[test]
fn options_from_json_tree() {
    let leaf = obj(vec![
        ("_type", s("option")),
        ("description", s("Enable it.")),
        ("type", obj(vec![("name", s("bool"))])),
        ("default", JsonValue::Bool(false)),
        ("declarations", JsonValue::Array(vec![s("/a.nix"), s("/b.nix")])),
    ]);
    let tree = obj(vec![("services", obj(vec![("openssh", obj(vec![("enable", leaf)])), ("count", num_json(3))]))]);
    let ev = NixEvaluator::new();
    assert_eq!(ev.nix_bin, "nix");
    let opts = ev.parse_options_json(tree);
    assert_eq!(opts.len(), 1);
    let o = &opts[0];
    assert_eq!(o.name, "services.openssh.enable");
    assert_eq!(o.description, "Enable it.");
    assert_eq!(o.option_type, OptionType::Bool);
    assert_eq!(o.default, Some(OptionValue::Bool(false)));
    assert_eq!(o.example, None);
    assert_eq!(o.declared_in.as_deref(), Some("/a.nix"));
}

#[test]
fn options_expressions() {
    assert_eq!(
        NixEvaluator::options_expr(None),
        "(import <nixpkgs/nixos> { configuration = {}; }).options"
    );
    assert_eq!(
        NixEvaluator::options_expr(Some("/etc/nixos")),
        "(import /etc/nixos/flake.nix).nixosConfigurations.${builtins.head (builtins.attrNames (import /etc/nixos/flake.nix).nixosConfigurations)}.options"
    );
}

#[test]
fn evaluator_reports() {
    assert_eq!(NixEvaluator::version_of("  nix (Nix) 2.18.1\n"), "nix (Nix) 2.18.1");
    assert_eq!(NixEvaluator::version_of(" \n\t"), "");
    assert_eq!(NixEvaluator::eval_failure("bad"), "nix eval failed:\nbad");
    assert_eq!(NixEvaluator::eval_args("1 + 1"), vec!["eval", "--json", "--expr", "1 + 1"]);
}
