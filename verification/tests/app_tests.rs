use flaky::option::FloatText;
use flaky::{App, AppMode, ConfigState, Flow, Key, ListItem, NixOption, OptionType, OptionValue, SchemaStore, Screen};

fn opt(name: &str, option_type: OptionType) -> NixOption {
    NixOption {
        name: name.into(),
        description: format!("Option {name}"),
        option_type,
        default: None,
        example: None,
        declared: true,
        declared_in: None,
    }
}

fn sample_app() -> App {
    let schema = SchemaStore::from_options(vec![
        opt("boot.loader.grub.enable", OptionType::Bool),
        opt("boot.loader.grub.device", OptionType::Str),
        opt("networking.hostName", OptionType::Str),
        opt("networking.port", OptionType::Int { min: None, max: None }),
        opt("networking.ratio", OptionType::Float),
        opt("services.openssh.permitRootLogin", OptionType::Enum {
            values: vec!["yes".into(), "no".into(), "prohibit-password".into()],
        }),
        opt("services.openssh.enable", OptionType::Bool),
    ]);
    App::new(schema, ConfigState::new())
}

fn paths(items: &[ListItem]) -> Vec<String> {
    items.iter().map(|i| i.full_path().to_string()).collect()
}

#[test]
fn starts_at_root_list() {
    let app = sample_app();
    assert_eq!(app.screen_stack.len(), 1);
    assert_eq!(app.current_screen(), &Screen::CategoryList { path: vec![] });
    assert_eq!(app.cursor, 0);
    assert_eq!(app.mode, AppMode::Navigate);
    assert_eq!(app.status_msg, None);
    let items = app.current_list_items();
    assert_eq!(
        items,
        vec![
            ListItem::Category("boot".into()),
            ListItem::Category("networking".into()),
            ListItem::Category("services".into()),
        ]
    );
}

#[test]
fn entering_walks_down_the_tree() {
    let mut app = sample_app();
    app.enter_selected();
    assert_eq!(app.current_screen(), &Screen::CategoryList { path: vec!["boot".into()] });
    assert_eq!(paths(&app.current_list_items()), vec!["boot.loader"]);
    app.enter_selected();
    app.enter_selected();
    assert_eq!(
        app.current_screen(),
        &Screen::CategoryList { path: vec!["boot".into(), "loader".into(), "grub".into()] }
    );
    assert_eq!(
        app.current_list_items(),
        vec![
            ListItem::Option("boot.loader.grub.enable".into()),
            ListItem::Option("boot.loader.grub.device".into()),
        ]
    );
    app.move_down();
    app.enter_selected();
    assert_eq!(
        app.current_screen(),
        &Screen::EditOption { option_name: "boot.loader.grub.device".into() }
    );
    assert!(app.current_list_items().is_empty());
    assert_eq!(app.selected_item(), None);
}

#[test]
fn mixed_leaves_and_namespaces() {
    let mut app = sample_app();
    app.move_down();
    app.enter_selected();
    assert_eq!(
        app.current_list_items(),
        vec![
            ListItem::Option("networking.hostName".into()),
            ListItem::Option("networking.port".into()),
            ListItem::Option("networking.ratio".into()),
        ]
    );
}

#[test]
fn cursor_wraps_both_ways() {
    let mut app = sample_app();
    app.move_up();
    assert_eq!(app.cursor, 2);
    app.move_down();
    assert_eq!(app.cursor, 0);
    app.move_down();
    app.move_up();
    assert_eq!(app.cursor, 0);
    app.cursor = usize::MAX;
    app.move_down();
    assert_eq!(app.cursor, 1);
}

#[test]
fn moves_on_empty_list_do_nothing() {
    let mut app = sample_app();
    app.push_screen(Screen::Error { message: "x".into() });
    app.cursor = 5;
    app.move_down();
    app.move_up();
    assert_eq!(app.cursor, 5);
    app.enter_selected();
    assert_eq!(app.screen_stack.len(), 2);
}

#[test]
fn push_then_pop_restores_stack() {
    let mut app = sample_app();
    let before = app.screen_stack.clone();
    app.cursor = 2;
    app.push_screen(Screen::Search { query: "grub".into() });
    assert_eq!(app.cursor, 0);
    app.pop_screen();
    assert_eq!(app.screen_stack, before);
    app.pop_screen();
    assert_eq!(app.screen_stack, before);
}

#[test]
fn replace_keeps_depth() {
    let mut app = sample_app();
    app.cursor = 1;
    app.replace_screen(Screen::Loading { message: "wait".into() });
    assert_eq!(app.screen_stack.len(), 1);
    assert_eq!(app.current_screen(), &Screen::Loading { message: "wait".into() });
    assert_eq!(app.cursor, 0);
}

#[test]
fn search_screen_lists_results() {
    let mut app = sample_app();
    app.push_screen(Screen::Search { query: "OPENSSH".into() });
    assert_eq!(
        paths(&app.current_list_items()),
        vec!["services.openssh.enable", "services.openssh.permitRootLogin"]
    );
}

#[test]
fn toggle_twice_restores() {
    let mut app = sample_app();
    app.toggle_bool("services.openssh.enable");
    assert_eq!(app.state.get("services.openssh.enable"), Some(&OptionValue::Bool(true)));
    app.toggle_bool("services.openssh.enable");
    assert_eq!(app.state.get("services.openssh.enable"), Some(&OptionValue::Bool(false)));
    app.toggle_bool("services.openssh.enable");
    app.toggle_bool("services.openssh.enable");
    assert_eq!(app.state.get("services.openssh.enable"), Some(&OptionValue::Bool(false)));
}

#[test]
fn toggle_on_text_option_reports_error() {
    let mut app = sample_app();
    app.toggle_bool("networking.hostName");
    assert_eq!(app.state.get("networking.hostName"), None);
    assert_eq!(
        app.status_msg.as_deref(),
        Some("error: type mismatch: option 'networking.hostName' expects Str, got Bool(true)")
    );
    app.toggle_bool("no.such.option");
    assert!(!app.state.is_dirty());
}

#[test]
fn cycle_forward_and_back() {
    let mut app = sample_app();
    let name = "services.openssh.permitRootLogin";
    app.cycle_enum(name, true);
    assert_eq!(app.state.get(name), Some(&OptionValue::Str("no".into())));
    app.cycle_enum(name, true);
    app.cycle_enum(name, true);
    assert_eq!(app.state.get(name), Some(&OptionValue::Str("yes".into())));
    app.cycle_enum(name, false);
    assert_eq!(app.state.get(name), Some(&OptionValue::Str("prohibit-password".into())));
    app.cycle_enum(name, true);
    assert_eq!(app.state.get(name), Some(&OptionValue::Str("yes".into())));
    app.cycle_enum("services.openssh.enable", true);
    assert_eq!(app.state.get("services.openssh.enable"), None);
}

#[test]
fn commit_text_and_numbers() {
    let mut app = sample_app();
    app.mode = AppMode::Editing;
    app.input_buf = "mybox".into();
    app.input_cursor = 5;
    app.commit_input("networking.hostName", None);
    assert_eq!(app.state.get("networking.hostName"), Some(&OptionValue::Str("mybox".into())));
    assert_eq!(app.mode, AppMode::Navigate);
    assert_eq!(app.input_buf, "");
    assert_eq!(app.input_cursor, 0);

    app.mode = AppMode::Editing;
    app.input_buf = "-22".into();
    app.commit_input("networking.port", None);
    assert_eq!(app.state.get("networking.port"), Some(&OptionValue::Int(-22)));

    app.mode = AppMode::Editing;
    app.input_buf = "2x".into();
    app.commit_input("networking.port", None);
    assert_eq!(app.status_msg.as_deref(), Some("'2x' is not a valid integer"));
    assert_eq!(app.mode, AppMode::Editing);
    assert_eq!(app.input_buf, "2x");
    assert_eq!(app.state.get("networking.port"), Some(&OptionValue::Int(-22)));
}

#[test]
fn commit_floats() {
    let mut app = sample_app();
    app.mode = AppMode::Editing;
    app.input_buf = "abc".into();
    app.commit_input("networking.ratio", None);
    assert_eq!(app.status_msg.as_deref(), Some("'abc' is not a valid number"));
    app.input_buf = "1.5".into();
    let f = FloatText { plain: "1.5".into(), fixed: "1.50".into(), debug: "1.5".into() };
    app.commit_input("networking.ratio", Some(f.clone()));
    assert_eq!(app.state.get("networking.ratio"), Some(&OptionValue::Float(f)));
    assert_eq!(app.mode, AppMode::Navigate);
}

#[test]
fn commit_other_types_just_closes() {
    let mut app = sample_app();
    app.mode = AppMode::Editing;
    app.input_buf = "true".into();
    app.commit_input("boot.loader.grub.enable", None);
    assert_eq!(app.state.get("boot.loader.grub.enable"), None);
    assert_eq!(app.mode, AppMode::Navigate);
    assert_eq!(app.input_buf, "");
    app.mode = AppMode::Editing;
    app.commit_input("no.such", None);
    assert_eq!(app.mode, AppMode::Editing);
}

#[test]
fn status_set_and_clear() {
    let mut app = sample_app();
    app.set_status("saved".to_string());
    assert_eq!(app.status_msg.as_deref(), Some("saved"));
    app.clear_status();
    assert_eq!(app.status_msg, None);
}

#[test]
fn list_item_names() {
    let c = ListItem::Category("services.openssh".into());
    assert_eq!(c.display_name(), "openssh");
    assert_eq!(c.full_path(), "services.openssh");
    let o = ListItem::Option("boot".into());
    assert_eq!(o.display_name(), "boot");
    assert_eq!(o.full_path(), "boot");
}

#[test]
fn keys_drive_the_app() {
    let mut app = sample_app();
    assert_eq!(app.handle_key(Key::Down), Flow::Continue);
    assert_eq!(app.cursor, 1);
    assert_eq!(app.handle_key(Key::Char('k')), Flow::Continue);
    assert_eq!(app.cursor, 0);
    app.handle_key(Key::Char('j'));
    app.handle_key(Key::Char('j'));
    app.handle_key(Key::Enter);
    app.handle_key(Key::Enter);
    assert_eq!(app.current_screen(), &Screen::CategoryList { path: vec!["services".into(), "openssh".into()] });
    app.handle_key(Key::Char('j'));
    app.handle_key(Key::Char(' '));
    assert_eq!(app.state.get("services.openssh.enable"), Some(&OptionValue::Bool(true)));
    app.handle_key(Key::Char('s'));
    assert_eq!(app.status_msg.as_deref(), Some("💾 Save stub — writer coming next"));
    assert_eq!(app.handle_key(Key::Char('u')), Flow::Continue);
    assert_eq!(app.state.get("services.openssh.enable"), None);
    assert!(!app.state.is_dirty());
    assert_eq!(app.handle_key(Key::Char('u')), Flow::Continue);
    assert_eq!(app.handle_key(Key::Other), Flow::Continue);
    assert_eq!(app.handle_key(Key::Esc), Flow::Continue);
    assert_eq!(app.current_screen(), &Screen::CategoryList { path: vec!["services".into()] });
    assert_eq!(app.cursor, 0);
    assert_eq!(app.handle_key(Key::Esc), Flow::Continue);
    assert_eq!(app.screen_stack.len(), 1);
    assert_eq!(app.handle_key(Key::Esc), Flow::Quit);
    assert_eq!(app.screen_stack.len(), 1);
    assert_eq!(app.handle_key(Key::Char('q')), Flow::Quit);
}

#[test]
fn demo_root_login_cycles_round() {
    let schema = SchemaStore::from_options(flaky::demo_options());
    let mut app = App::new(schema, ConfigState::new());
    let name = "services.openssh.permitRootLogin";
    let opt = app.schema.option_named(name).unwrap().clone();
    app.state.set(&opt, Some(OptionValue::Str("no".into()))).unwrap();
    app.cycle_enum(name, true);
    assert_eq!(app.state.get(name), Some(&OptionValue::Str("yes".into())));
    app.cycle_enum(name, false);
    assert_eq!(app.state.get(name), Some(&OptionValue::Str("no".into())));
}

#[test]
fn demo_hostname_commit() {
    let schema = SchemaStore::from_options(flaky::demo_options());
    let mut app = App::new(schema, ConfigState::new());
    app.mode = AppMode::Editing;
    app.input_buf = "mybox".into();
    app.input_cursor = 5;
    app.commit_input("networking.hostName", None);
    assert_eq!(app.state.get("networking.hostName"), Some(&OptionValue::Str("mybox".into())));
    assert_eq!(app.mode, AppMode::Navigate);
    assert_eq!(app.input_buf, "");
    assert_eq!(app.input_cursor, 0);
    assert_eq!(app.status_msg, None);
}
