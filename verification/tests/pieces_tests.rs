use flaky::render::{
    description_lines, detail_lines, dialog_lines, edit_info_lines, editor_border, editor_pieces,
    footer_pieces, framed_title, header_pieces, list_title, list_under, loading_text, log_pieces,
    results_title, row_pieces, search_pieces, Piece, Tone, Weight,
};
use flaky::{App, AppMode, ConfigState, ConfirmKind, ListItem, NixOption, OptionType, OptionValue, SchemaStore, Screen};

fn opt(name: &str, option_type: OptionType, default: Option<OptionValue>) -> NixOption {
    NixOption {
        name: name.into(),
        description: "Turn it on or off.".into(),
        option_type,
        default,
        example: None,
        declared: true,
        declared_in: Some("/m.nix".into()),
    }
}

fn sample_app() -> App {
    let schema = SchemaStore::from_options(vec![
        opt("boot.enable", OptionType::Bool, Some(OptionValue::Bool(true))),
        opt("boot.mode", OptionType::Enum { values: vec!["a".into(), "b".into()] }, None),
        opt("boot.name", OptionType::Str, None),
        opt("boot.zone", OptionType::Nullable { inner: Box::new(OptionType::Str) }, None),
        opt("boot.pkgs", OptionType::List { element: Box::new(OptionType::Package) }, None),
    ]);
    App::new(schema, ConfigState::new())
}

fn p(text: &str, tone: Tone, weight: Weight) -> Piece {
    Piece { text: text.into(), tone, weight }
}

fn n(text: &str, tone: Tone) -> Piece {
    p(text, tone, Weight::Normal)
}

#[test]
fn header_line() {
    let mut app = sample_app();
    assert_eq!(
        header_pieces(&app),
        vec![
            p(" nixcfg › system configuration", Tone::White, Weight::Bold),
            n("  ", Tone::Default),
            n(" ✓ saved", Tone::Success),
        ]
    );
    app.toggle_bool("boot.enable");
    assert_eq!(header_pieces(&app)[2], n(" ● 1 unsaved", Tone::Highlight));
}

#[test]
fn rows() {
    let mut app = sample_app();
    assert_eq!(
        row_pieces(&app, &ListItem::Category("boot".into())),
        vec![n("  ", Tone::Default), p("boot", Tone::White, Weight::Bold), n("  ›", Tone::Muted)]
    );
    app.toggle_bool("boot.enable");
    assert_eq!(
        row_pieces(&app, &ListItem::Option("boot.enable".into())),
        vec![n("● ", Tone::Highlight), n(&format!("{:<28}", "enable"), Tone::White), n("enabled", Tone::Highlight)]
    );
    assert_eq!(
        row_pieces(&app, &ListItem::Option("boot.name".into())),
        vec![n("  ", Tone::Highlight), n(&format!("{:<28}", "name"), Tone::White), n("—", Tone::Muted)]
    );
    assert_eq!(list_title(&vec![]), p(" Categories ", Tone::Accent, Weight::Bold));
    assert_eq!(list_title(&vec!["boot".into()]), p(" Options ", Tone::Accent, Weight::Bold));
}

#[test]
fn detail_panel() {
    let mut app = sample_app();
    let cat = detail_lines(&app, 40);
    assert_eq!(cat.len(), 5);
    assert_eq!(cat[0], vec![p("boot", Tone::White, Weight::Bold)]);
    assert_eq!(cat[2], vec![n("5 options", Tone::Muted)]);
    app.enter_selected();
    let d = detail_lines(&app, 40);
    assert_eq!(d[0], vec![p("boot.enable", Tone::White, Weight::Bold)]);
    assert_eq!(d[2], vec![n("Type:  ", Tone::Muted), n("bool", Tone::Accent)]);
    assert_eq!(d[3], vec![n("Default: ", Tone::Muted), n("enabled", Tone::Muted)]);
    assert_eq!(d[5], vec![n("Turn it on or off.", Tone::Gray)]);
    assert_eq!(d[7], vec![p("⟨ /m.nix ⟩", Tone::Muted, Weight::Italic)]);
    assert_eq!(d.len(), 8);
    app.push_screen(Screen::Error { message: "x".into() });
    assert_eq!(detail_lines(&app, 40), vec![vec![n("Nothing selected", Tone::Default)]]);
}

#[test]
fn editor_heads_and_widgets() {
    let mut app = sample_app();
    let o = app.schema.option_named("boot.name").unwrap();
    let info = edit_info_lines(&app, o, "boot.name");
    assert_eq!(info[2], vec![n("current: ", Tone::Muted), n("not set", Tone::Highlight)]);
    assert_eq!(editor_pieces(&app, o, "boot.name"), vec![n("—", Tone::White), n("   enter to edit", Tone::Muted)]);
    let b = app.schema.option_named("boot.enable").unwrap();
    assert_eq!(
        editor_pieces(&app, b, "boot.enable"),
        vec![p("  [ ON ]  off  ", Tone::Success, Weight::Bold), n("   space to toggle", Tone::Muted)]
    );
    let e = app.schema.option_named("boot.mode").unwrap();
    assert_eq!(
        editor_pieces(&app, e, "boot.mode"),
        vec![n("← ", Tone::Muted), n("  a  ", Tone::Muted), n("  b  ", Tone::Muted), n(" →", Tone::Muted)]
    );
    let z = app.schema.option_named("boot.zone").unwrap();
    assert_eq!(editor_pieces(&app, z, "boot.zone")[0], p("  [ disabled ]  enable  ", Tone::Muted, Weight::Bold));
    let l = app.schema.option_named("boot.pkgs").unwrap();
    assert_eq!(editor_pieces(&app, l, "boot.pkgs"), vec![n("Complex type — a to add  d to delete", Tone::Default)]);

    app.mode = AppMode::Editing;
    app.input_buf = "héllo".into();
    app.input_cursor = 3;
    let o = app.schema.option_named("boot.name").unwrap();
    assert_eq!(
        editor_pieces(&app, o, "boot.name"),
        vec![
            n("hé", Tone::White),
            p("│", Tone::Highlight, Weight::Blink),
            n("llo", Tone::White),
            n("   enter to confirm  esc to cancel", Tone::Muted),
        ]
    );
    assert_eq!(editor_border(AppMode::Editing), Tone::Highlight);
    assert_eq!(editor_border(AppMode::Navigate), Tone::Border);
}

#[test]
fn footer_and_search() {
    let mut app = sample_app();
    app.set_status("error: nope".to_string());
    let (hint, status) = footer_pieces(&app);
    assert!(hint.text.starts_with(" ↑↓ navigate"));
    assert_eq!(status, n(" error: nope", Tone::Danger));
    app.clear_status();
    assert_eq!(footer_pieces(&app).1, n(" ", Tone::Success));
    assert_eq!(
        search_pieces("gr"),
        vec![p("/ ", Tone::Accent, Weight::Bold), n("gr", Tone::White), p("│", Tone::Highlight, Weight::Blink)]
    );
    assert_eq!(results_title(3), n(" 3 results ", Tone::Muted));
}

#[test]
fn dialogs_logs_and_titles() {
    let d = dialog_lines(ConfirmKind::Discard);
    assert_eq!(d[1], vec![n("All unsaved edits will be lost", Tone::White)]);
    assert_eq!(d[3], vec![p("  [ y ] yes   ", Tone::Success, Weight::Bold), n("[ n ] no / cancel  ", Tone::Muted)]);
    let logs = log_pieces(&vec!["error: x".into(), "warning".into(), "fine".into()]);
    assert_eq!(logs, vec![n("error: x", Tone::Danger), n("warning", Tone::Highlight), n("fine", Tone::Gray)]);
    assert_eq!(loading_text("options"), "⟳  options");
    assert_eq!(framed_title("Error"), " Error ");
    assert_eq!(description_lines("a b", 1), vec![vec![n("a", Tone::Gray)], vec![n("b", Tone::Gray)]]);
}

#[test]
fn list_under_dialog() {
    let mut app = sample_app();
    assert_eq!(list_under(&app), None);
    app.push_screen(Screen::Confirm(ConfirmKind::Save));
    assert_eq!(list_under(&app), Some(&vec![]));
    app.pop_screen();
    app.push_screen(Screen::Search { query: "q".into() });
    app.push_screen(Screen::Confirm(ConfirmKind::Quit));
    assert_eq!(list_under(&app), None);
}
