use flaky::{ConfigState, NixOption, OptionType, OptionValue, StateError, StringMap};

fn bool_option(name: &str) -> NixOption {
    NixOption {
        name: name.into(),
        description: "".into(),
        option_type: OptionType::Bool,
        default: None,
        example: None,
        declared: true,
        declared_in: None,
    }
}

#[test]
fn set_and_get() {
    let mut state = ConfigState::new();
    let opt = bool_option("services.openssh.enable");
    state.set(&opt, Some(OptionValue::Bool(true))).unwrap();
    assert_eq!(
        state.get("services.openssh.enable"),
        Some(&OptionValue::Bool(true))
    );
    assert!(state.is_dirty());
}

#[test]
fn undo_restores_previous() {
    let mut state = ConfigState::new();
    let opt = bool_option("services.openssh.enable");
    state.load_current({
        let mut m = StringMap::new();
        m.insert("services.openssh.enable".into(), OptionValue::Bool(false));
        m
    });
    state.set(&opt, Some(OptionValue::Bool(true))).unwrap();
    let name = state.undo().unwrap();
    assert_eq!(name, "services.openssh.enable");
    assert_eq!(
        state.get("services.openssh.enable"),
        Some(&OptionValue::Bool(false))
    );
}

#[test]
fn take_pending_clears_dirty() {
    let mut state = ConfigState::new();
    let opt = bool_option("boot.loader.grub.enable");
    state.set(&opt, Some(OptionValue::Bool(true))).unwrap();
    assert!(state.is_dirty());
    let changes = state.take_pending();
    assert!(!state.is_dirty());
    assert!(changes.contains_key("boot.loader.grub.enable"));
}

#[test]
fn mismatch_is_refused_with_message() {
    let mut state = ConfigState::new();
    let opt = bool_option("x.y");
    let err = state.set(&opt, Some(OptionValue::Str("no".into()))).unwrap_err();
    match &err {
        StateError::TypeMismatch { option, .. } => assert_eq!(option, "x.y"),
    }
    assert_eq!(err.message(), "type mismatch: option 'x.y' expects Bool, got Str(\"no\")");
    assert!(!state.is_dirty());
    assert_eq!(state.get("x.y"), None);
}

#[test]
fn reset_to_default_hides_baseline() {
    let mut state = ConfigState::new();
    let mut m = StringMap::new();
    m.insert("a.b".to_string(), OptionValue::Bool(true));
    state.load_current(m);
    state.set(&bool_option("a.b"), None).unwrap();
    assert_eq!(state.get("a.b"), None);
    assert_eq!(state.pending_count(), 1);
    state.revert();
    assert_eq!(state.get("a.b"), Some(&OptionValue::Bool(true)));
    assert!(!state.is_dirty());
}

#[test]
fn undo_with_empty_history() {
    let mut state = ConfigState::new();
    assert_eq!(state.undo(), None);
}

#[test]
fn undo_of_first_edit_removes_it() {
    let mut state = ConfigState::new();
    state.set(&bool_option("a.b"), Some(OptionValue::Bool(true))).unwrap();
    assert_eq!(state.undo(), Some("a.b".to_string()));
    assert_eq!(state.get("a.b"), None);
    assert!(!state.is_dirty());
}

#[test]
fn take_pending_keeps_values() {
    let mut state = ConfigState::new();
    let mut m = StringMap::new();
    m.insert("gone".to_string(), OptionValue::Int(1));
    state.load_current(m);
    state.set(&bool_option("a.b"), Some(OptionValue::Bool(true))).unwrap();
    state.set(&bool_option("gone"), None).unwrap();
    let changes = state.take_pending();
    assert_eq!(changes.len(), 2);
    assert_eq!(state.get("a.b"), Some(&OptionValue::Bool(true)));
    assert_eq!(state.get("gone"), None);
    assert_eq!(state.undo(), None);
}

#[test]
fn dirty_names_in_edit_order() {
    let mut state = ConfigState::new();
    state.set(&bool_option("z"), Some(OptionValue::Bool(true))).unwrap();
    state.set(&bool_option("a"), Some(OptionValue::Bool(true))).unwrap();
    state.set(&bool_option("z"), Some(OptionValue::Bool(false))).unwrap();
    let names: Vec<&str> = state.dirty_names().iter().map(|s| s.as_str()).collect();
    assert_eq!(names, vec!["z", "a"]);
}

#[test]
fn history_is_bounded() {
    let mut state = ConfigState::new();
    let opt = bool_option("a");
    for i in 0..150 {
        state.set(&opt, Some(OptionValue::Bool(i % 2 == 0))).unwrap();
    }
    let mut undone = 0;
    while state.undo().is_some() {
        undone += 1;
    }
    assert_eq!(undone, 100);
}

#[test]
fn undo_brings_back_a_reset() {
    let mut state = ConfigState::new();
    let opt = bool_option("services.openssh.enable");
    let mut m = StringMap::new();
    m.insert("services.openssh.enable".to_string(), OptionValue::Bool(false));
    state.load_current(m);
    state.set(&opt, None).unwrap();
    state.set(&opt, Some(OptionValue::Bool(true))).unwrap();
    assert_eq!(state.undo(), Some("services.openssh.enable".to_string()));
    assert_eq!(state.get("services.openssh.enable"), None);
    assert!(state.is_dirty());
    assert_eq!(state.undo(), Some("services.openssh.enable".to_string()));
    assert_eq!(state.get("services.openssh.enable"), Some(&OptionValue::Bool(false)));
    assert!(!state.is_dirty());
}

#[test]
fn get_after_many_edits() {
    let mut state = ConfigState::new();
    let mut m = StringMap::new();
    m.insert("a".to_string(), OptionValue::Bool(true));
    m.insert("b".to_string(), OptionValue::Bool(true));
    m.insert("c".to_string(), OptionValue::Bool(false));
    state.load_current(m);
    state.set(&bool_option("a"), Some(OptionValue::Bool(false))).unwrap();
    state.set(&bool_option("b"), None).unwrap();
    state.set(&bool_option("a"), Some(OptionValue::Bool(true))).unwrap();
    state.set(&bool_option("d"), Some(OptionValue::Bool(true))).unwrap();
    assert_eq!(state.get("a"), Some(&OptionValue::Bool(true)));
    assert_eq!(state.get("b"), None);
    assert_eq!(state.get("c"), Some(&OptionValue::Bool(false)));
    assert_eq!(state.get("d"), Some(&OptionValue::Bool(true)));
    assert_eq!(state.get("e"), None);
}

#[test]
fn undo_walks_back_newest_first() {
    let mut state = ConfigState::new();
    for i in 0..105 {
        let name = format!("opt{i}");
        state.set(&bool_option(&name), Some(OptionValue::Bool(true))).unwrap();
    }
    for i in (5..105).rev() {
        assert_eq!(state.undo(), Some(format!("opt{i}")));
    }
    assert_eq!(state.undo(), None);
    assert_eq!(state.undo(), None);
    assert_eq!(state.get("opt4"), Some(&OptionValue::Bool(true)));
    assert_eq!(state.get("opt5"), None);
}

#[test]
fn revert_after_edits_and_undos() {
    let mut state = ConfigState::new();
    let mut m = StringMap::new();
    m.insert("a".to_string(), OptionValue::Bool(true));
    state.load_current(m);
    state.set(&bool_option("a"), Some(OptionValue::Bool(false))).unwrap();
    state.set(&bool_option("b"), Some(OptionValue::Bool(false))).unwrap();
    state.undo();
    state.set(&bool_option("a"), None).unwrap();
    state.revert();
    assert_eq!(state.get("a"), Some(&OptionValue::Bool(true)));
    assert_eq!(state.get("b"), None);
    assert!(!state.is_dirty());
    assert_eq!(state.pending_count(), 0);
    assert_eq!(state.undo(), None);
}

#[test]
fn undoing_every_edit_restores_values() {
    let mut state = ConfigState::new();
    let mut m = StringMap::new();
    m.insert("a".to_string(), OptionValue::Bool(true));
    m.insert("b".to_string(), OptionValue::Bool(false));
    state.load_current(m);
    state.set(&bool_option("b"), None).unwrap();
    let before: Vec<Option<OptionValue>> = ["a", "b", "c"].iter().map(|n| state.get(n).cloned()).collect();
    state.set(&bool_option("a"), Some(OptionValue::Bool(false))).unwrap();
    state.set(&bool_option("b"), Some(OptionValue::Bool(true))).unwrap();
    state.set(&bool_option("c"), None).unwrap();
    state.set(&bool_option("a"), None).unwrap();
    for _ in 0..4 {
        assert!(state.undo().is_some());
    }
    let after: Vec<Option<OptionValue>> = ["a", "b", "c"].iter().map(|n| state.get(n).cloned()).collect();
    assert_eq!(after, before);
    assert_eq!(state.pending_count(), 1);
}
