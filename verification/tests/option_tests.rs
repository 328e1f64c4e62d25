use flaky::option::{last_segment_of, FloatText};
use flaky::{NixOption, OptionType, OptionValue, StringMap};

fn bool_option(name: &str) -> NixOption {
    NixOption {
        name: name.into(),
        description: "".into(),
        option_type: OptionType::Bool,
        default: None,
        example: None,
        declared: true,
        declared_in: None,
    }
}

#[test]
fn bool_display() {
    assert_eq!(OptionValue::Bool(true).display(), "enabled");
    assert_eq!(OptionValue::Bool(false).display(), "disabled");
}

#[test]
fn short_name() {
    let opt = NixOption {
        name: "services.openssh.enable".into(),
        description: "".into(),
        option_type: OptionType::Bool,
        default: None,
        example: None,
        declared: true,
        declared_in: None,
    };
    assert_eq!(opt.short_name(), "enable");
    assert_eq!(opt.category(), "services.openssh");
}

#[test]
fn display_of_each_value() {
    assert_eq!(OptionValue::Int(-42).display(), "-42");
    assert_eq!(OptionValue::Int(i64::MIN).display(), "-9223372036854775808");
    let f = FloatText { plain: "2.5".into(), fixed: "2.50".into(), debug: "2.5".into() };
    assert_eq!(OptionValue::Float(f).display(), "2.50");
    assert_eq!(OptionValue::Str("hi".into()).display(), "\"hi\"");
    let list = OptionValue::List(vec![OptionValue::Int(1), OptionValue::Int(2), OptionValue::Null]);
    assert_eq!(list.display(), "[3 items]");
    let mut m = StringMap::new();
    m.insert("a".to_string(), OptionValue::Bool(true));
    assert_eq!(OptionValue::Attrs(m).display(), "{ 1 attrs }");
    assert_eq!(OptionValue::Null.display(), "null (disabled)");
}

#[test]
fn name_without_dot() {
    let opt = bool_option("hostname");
    assert_eq!(opt.short_name(), "hostname");
    assert_eq!(opt.category(), "");
    assert_eq!(last_segment_of("a.b.c"), "c");
    assert_eq!(last_segment_of("trailing."), "");
}

#[test]
fn name_is_parent_dot_segment() {
    let opt = bool_option("boot.loader.grub.enable");
    let joined = format!("{}.{}", opt.category(), opt.short_name());
    assert_eq!(joined, opt.name);
    assert!(!opt.short_name().contains('.'));
}

#[test]
fn widget_hints() {
    assert_eq!(OptionType::Bool.widget_hint(), "space to toggle");
    assert_eq!(OptionType::Int { min: None, max: None }.widget_hint(), "type a number");
    assert_eq!(OptionType::Enum { values: vec![] }.widget_hint(), "← → to cycle");
    assert_eq!(OptionType::Unknown { type_str: "x".into() }.widget_hint(), "enter to edit raw");
}

#[test]
fn type_matching() {
    assert!(OptionValue::Bool(true).type_matches(&OptionType::Bool));
    assert!(OptionValue::Str("x".into()).type_matches(&OptionType::Path));
    assert!(OptionValue::Str("x".into()).type_matches(&OptionType::Enum { values: vec!["y".into()] }));
    assert!(OptionValue::Null.type_matches(&OptionType::Nullable { inner: Box::new(OptionType::Str) }));
    assert!(!OptionValue::Null.type_matches(&OptionType::Str));
    let tz = OptionType::Nullable { inner: Box::new(OptionType::Str) };
    assert!(OptionValue::Str("America/New_York".into()).type_matches(&tz));
    assert!(!OptionValue::Int(3).type_matches(&tz));
    assert!(!OptionValue::Int(1).type_matches(&OptionType::Float));
}

#[test]
fn duplicate_keeps_value() {
    let v = OptionValue::List(vec![OptionValue::Str("a".into()), OptionValue::Int(3)]);
    assert_eq!(v.duplicate(), v);
    assert_eq!(v.clone(), v);
}

#[test]
fn options_and_types_clone() {
    let mut nested = StringMap::new();
    nested.insert("port".to_string(), bool_option("sub.port"));
    let t = OptionType::List {
        element: Box::new(OptionType::Submodule { options: nested }),
    };
    assert_eq!(t.clone(), t);
    let mut o = bool_option("a.b");
    o.option_type = OptionType::Enum { values: vec!["x".into(), "y".into()] };
    o.default = Some(OptionValue::Str("x".into()));
    o.declared_in = Some("/f.nix".into());
    assert_eq!(o.clone(), o);
}

#[test]
fn attrs_compare_as_maps() {
    let mut a = StringMap::new();
    a.insert("x".to_string(), OptionValue::Int(1));
    a.insert("y".to_string(), OptionValue::Int(2));
    let mut b = StringMap::new();
    b.insert("y".to_string(), OptionValue::Int(2));
    b.insert("x".to_string(), OptionValue::Int(1));
    assert_eq!(OptionValue::Attrs(a), OptionValue::Attrs(b));
    let mut c = StringMap::new();
    c.insert("x".to_string(), OptionValue::Int(1));
    let mut d = StringMap::new();
    d.insert("x".to_string(), OptionValue::Int(2));
    assert_ne!(c, d);
    let mut e = StringMap::new();
    e.insert("z".to_string(), OptionValue::Int(1));
    let mut f = StringMap::new();
    f.insert("x".to_string(), OptionValue::Int(1));
    assert_ne!(e, f);
}

#[test]
fn debug_text_of_values() {
    assert_eq!(OptionValue::Bool(true).debug_text(), "Bool(true)");
    assert_eq!(OptionValue::Int(-42).debug_text(), "Int(-42)");
    let f = FloatText { plain: "2.5".into(), fixed: "2.50".into(), debug: "2.5".into() };
    assert_eq!(OptionValue::Float(f).debug_text(), "Float(2.5)");
    let one = FloatText { plain: "1".into(), fixed: "1.00".into(), debug: "1.0".into() };
    assert_eq!(OptionValue::Float(one).debug_text(), "Float(1.0)");
    assert_eq!(OptionValue::Str("say \"hi\"\n\\ it's".into()).debug_text(), "Str(\"say \\\"hi\\\"\\n\\\\ it's\")");
    assert_eq!(OptionValue::Null.debug_text(), "Null");
    let list = OptionValue::List(vec![OptionValue::Int(1), OptionValue::Str("a".into())]);
    assert_eq!(list.debug_text(), "List([Int(1), Str(\"a\")])");
    assert_eq!(OptionValue::List(vec![]).debug_text(), "List([])");
    let mut m = StringMap::new();
    m.insert("k".to_string(), OptionValue::Int(1));
    m.insert("j".to_string(), OptionValue::Null);
    assert_eq!(OptionValue::Attrs(m).debug_text(), "Attrs({\"k\": Int(1), \"j\": Null})");
    assert_eq!(OptionValue::Attrs(StringMap::new()).debug_text(), "Attrs({})");
}

#[test]
fn debug_text_of_types() {
    assert_eq!(OptionType::Bool.debug_text(), "Bool");
    assert_eq!(OptionType::Int { min: None, max: Some(5) }.debug_text(), "Int { min: None, max: Some(5) }");
    let e = OptionType::Enum { values: vec!["yes".into(), "no".into()] };
    assert_eq!(e.debug_text(), "Enum { values: [\"yes\", \"no\"] }");
    let l = OptionType::List { element: Box::new(OptionType::Nullable { inner: Box::new(OptionType::Str) }) };
    assert_eq!(l.debug_text(), "List { element: Nullable { inner: Str } }");
    assert_eq!(OptionType::Unknown { type_str: "x".into() }.debug_text(), "Unknown { type_str: \"x\" }");
    let mut opts = StringMap::new();
    opts.insert("port".to_string(), NixOption {
        name: "sub.port".into(),
        description: "".into(),
        option_type: OptionType::Int { min: None, max: None },
        default: Some(OptionValue::Int(22)),
        example: None,
        declared: true,
        declared_in: Some("m.nix".into()),
    });
    let sub = OptionType::Submodule { options: opts };
    assert_eq!(
        sub.debug_text(),
        "Submodule { options: {\"port\": NixOption { name: \"sub.port\", description: \"\", option_type: Int { min: None, max: None }, default: Some(Int(22)), example: None, declared: true, declared_in: Some(\"m.nix\") }} }"
    );
}

#[test]
fn float_mismatch_message() {
    let mut state = flaky::ConfigState::new();
    let opt = NixOption {
        name: "a.b".into(),
        description: "".into(),
        option_type: OptionType::Bool,
        default: None,
        example: None,
        declared: true,
        declared_in: None,
    };
    let f = FloatText { plain: "2.5".into(), fixed: "2.50".into(), debug: "2.5".into() };
    let err = state.set(&opt, Some(OptionValue::Float(f))).unwrap_err();
    assert_eq!(err.message(), "type mismatch: option 'a.b' expects Bool, got Float(2.5)");
}
