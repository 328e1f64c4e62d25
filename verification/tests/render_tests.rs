use flaky::render::{
    breadcrumb, category_count, centered_rect, choice_labels, confirm_text, enum_shown,
    footer_hint, input_split, log_tone, null_shown, option_row, save_indicator, status_is_error,
    switch_shown, type_label, value_text, wrap_text, Area, Tone,
};
use flaky::{App, ConfigState, ConfirmKind, NixOption, OptionType, OptionValue, SchemaStore, Screen};

fn opt(name: &str, option_type: OptionType, default: Option<OptionValue>) -> NixOption {
    NixOption {
        name: name.into(),
        description: String::new(),
        option_type,
        default,
        example: None,
        declared: true,
        declared_in: None,
    }
}

fn sample_app() -> App {
    let schema = SchemaStore::from_options(vec![
        opt("boot.enable", OptionType::Bool, Some(OptionValue::Bool(true))),
        opt("boot.mode", OptionType::Enum { values: vec!["a".into(), "b".into()] }, Some(OptionValue::Str("b".into()))),
        opt("boot.name", OptionType::Str, None),
        opt("boot.zone", OptionType::Nullable { inner: Box::new(OptionType::Str) }, Some(OptionValue::Null)),
        opt("net.host", OptionType::Str, None),
    ]);
    App::new(schema, ConfigState::new())
}

#[test]
fn type_labels() {
    assert_eq!(type_label(&OptionType::Str), "string");
    assert_eq!(type_label(&OptionType::Enum { values: vec!["a".into(), "b".into()] }), "enum (a | b)");
    let t = OptionType::List { element: Box::new(OptionType::Nullable { inner: Box::new(OptionType::Int { min: None, max: None }) }) };
    assert_eq!(type_label(&t), "list of null or int");
    assert_eq!(type_label(&OptionType::Unknown { type_str: "weird".into() }), "weird");
}

#[test]
fn wrapping() {
    assert_eq!(wrap_text("hello world foo", 11), vec!["hello world", "foo"]);
    assert_eq!(wrap_text("hello world foo", 0), vec!["hello world foo"]);
    assert_eq!(wrap_text("  a   b  ", 10), vec!["a b"]);
    assert_eq!(wrap_text("a\nb", 10), vec!["a", "", "b", ""]);
    assert_eq!(wrap_text("averyverylongword x", 4), vec!["averyverylongword", "x"]);
    assert_eq!(wrap_text("", 5), Vec::<String>::new());
    assert_eq!(wrap_text("é é", 4), vec!["é", "é"]);
    assert_eq!(wrap_text("é é", 5), vec!["é é"]);
}

#[test]
fn centring() {
    let r = centered_rect(50, 9, Area { x: 2, y: 1, width: 100, height: 30 });
    assert_eq!(r, Area { x: 27, y: 11, width: 50, height: 9 });
    let small = centered_rect(50, 9, Area { x: 0, y: 0, width: 10, height: 4 });
    assert_eq!(small, Area { x: 2, y: 0, width: 5, height: 9 });
}

#[test]
fn header_texts() {
    assert_eq!(breadcrumb(&Screen::CategoryList { path: vec![] }), " nixcfg › system configuration");
    assert_eq!(
        breadcrumb(&Screen::CategoryList { path: vec!["a".into(), "b".into()] }),
        " nixcfg › a › b"
    );
    assert_eq!(breadcrumb(&Screen::EditOption { option_name: "x.y".into() }), " nixcfg › x.y");
    assert_eq!(breadcrumb(&Screen::Search { query: "q".into() }), " nixcfg › search");
    assert_eq!(breadcrumb(&Screen::Error { message: "m".into() }), " nixcfg");
    assert_eq!(save_indicator(true, 3), " ● 3 unsaved");
    assert_eq!(save_indicator(false, 0), " ✓ saved");
}

#[test]
fn footer_texts() {
    let mut app = sample_app();
    assert!(footer_hint(&app).starts_with("↑↓ navigate  enter expand/edit"));
    app.push_screen(Screen::EditOption { option_name: "boot.enable".into() });
    assert_eq!(footer_hint(&app), "space to toggle");
    app.replace_screen(Screen::EditOption { option_name: "nope".into() });
    assert_eq!(footer_hint(&app), "esc back");
    app.replace_screen(Screen::Confirm(ConfirmKind::Save));
    assert_eq!(footer_hint(&app), "y confirm  n / esc cancel");
    assert!(status_is_error("error: bad"));
    assert!(status_is_error("Error"));
    assert!(!status_is_error("saved"));
}

#[test]
fn tones() {
    assert_eq!(log_tone("build Error: x"), Tone::Danger);
    assert_eq!(log_tone("warning: y"), Tone::Highlight);
    assert_eq!(log_tone("ok"), Tone::Gray);
    assert_eq!(confirm_text(ConfirmKind::Quit), (" Quit with unsaved changes? ", "Pending edits will be lost", Tone::Danger));
    assert_eq!(confirm_text(ConfirmKind::Save).2, Tone::Success);
}

#[test]
fn values_as_shown() {
    let mut app = sample_app();
    assert_eq!(value_text(&app, "boot.enable", "—", " (default)"), "enabled (default)");
    assert_eq!(value_text(&app, "boot.name", "not set", " (default)"), "not set");
    app.toggle_bool("boot.enable");
    assert_eq!(value_text(&app, "boot.enable", "—", " (default)"), "enabled");
    let row = option_row(&app, "boot.enable");
    assert!(row.dirty);
    assert_eq!(row.label, format!("{:<28}", "enable"));
    assert_eq!(row.value, "enabled");
    let row2 = option_row(&app, "boot.mode");
    assert!(!row2.dirty);
    assert_eq!(row2.value, "\"b\" (default)");
}

#[test]
fn editor_states() {
    let mut app = sample_app();
    assert!(switch_shown(&app, "boot.enable"));
    assert!(!switch_shown(&app, "boot.name"));
    assert_eq!(enum_shown(&app, "boot.mode"), "b");
    app.cycle_enum("boot.mode", false);
    assert_eq!(enum_shown(&app, "boot.mode"), "b");
    app.cycle_enum("boot.mode", true);
    assert_eq!(enum_shown(&app, "boot.mode"), "a");
    assert_eq!(enum_shown(&app, "boot.enable"), "");
    assert_eq!(
        choice_labels(&vec!["a".to_string(), "b".to_string()], "a"),
        vec![(" [ a ] ".to_string(), true), ("  b  ".to_string(), false)]
    );
    assert!(null_shown(&app, "boot.zone"));
    let zone = app.schema.option_named("boot.zone").unwrap();
    app.state.set(zone, Some(OptionValue::Str("UTC".into()))).unwrap();
    assert!(!null_shown(&app, "boot.zone"));
    app.state.set(zone, Some(OptionValue::Bool(true))).unwrap_err();
    app.state.set(zone, Some(OptionValue::Null)).unwrap();
    assert!(null_shown(&app, "boot.zone"));
    let host = app.schema.option_named("boot.name").unwrap();
    app.state.set(host, Some(OptionValue::Str("x".into()))).unwrap();
    assert!(!null_shown(&app, "boot.name"));
}

#[test]
fn counts_and_input() {
    let app = sample_app();
    assert_eq!(category_count(&app.schema, "boot"), 4);
    assert_eq!(category_count(&app.schema, "bo"), 0);
    assert_eq!(input_split("héllo", 3), ("hé".to_string(), "llo".to_string()));
    assert_eq!(input_split("abc", 10), ("abc".to_string(), String::new()));
    assert_eq!(input_split("abc", 0), (String::new(), "abc".to_string()));
}

#[test]
fn wrapping_keeps_words_in_order() {
    let text = "the quick brown fox jumps over the lazy dog";
    for width in 1..20 {
        let lines = wrap_text(text, width);
        assert_eq!(lines.join(" "), text);
    }
    assert_eq!(wrap_text(text, 10), vec!["the quick", "brown fox", "jumps over", "the lazy", "dog"]);
}
