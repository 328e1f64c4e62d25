use flaky::{
    apply_changes_to_source, generate_managed_block, minimal_configuration,
    minimal_configuration_with_block, minimal_flake, value_to_nix, FlakeWriter, OptionValue,
    StringMap,
};
use flaky::option::FloatText;
use flaky::writer::rebuild_outcome;

#[test]
fn bool_to_nix() {
    assert_eq!(value_to_nix(&OptionValue::Bool(true)), "true");
    assert_eq!(value_to_nix(&OptionValue::Bool(false)), "false");
}

#[test]
fn list_to_nix() {
    let val = OptionValue::List(vec![OptionValue::Int(22), OptionValue::Int(80)]);
    assert_eq!(value_to_nix(&val), "[ 22 80 ]");
}

#[test]
fn str_escapes_quotes() {
    let val = OptionValue::Str("say \"hello\"".into());
    assert_eq!(value_to_nix(&val), r#""say \"hello\"""#);
}

#[test]
fn managed_block_round_trips() {
    let mut changes = StringMap::new();
    changes.insert(
        "services.openssh.enable".into(),
        Some(OptionValue::Bool(true)),
    );
    let source = "";
    let result = apply_changes_to_source(source, &changes);
    assert!(result.contains("services.openssh.enable = true;"));
    assert!(result.contains("# nixcfg:start"));
    assert!(result.contains("# nixcfg:end"));
}

#[test]
fn second_write_replaces_block() {
    let mut changes = StringMap::new();
    changes.insert(
        "networking.hostName".into(),
        Some(OptionValue::Str("mybox".into())),
    );
    let first = apply_changes_to_source("", &changes);

    changes.insert(
        "networking.hostName".into(),
        Some(OptionValue::Str("newbox".into())),
    );
    let second = apply_changes_to_source(&first, &changes);

    assert!(second.contains("\"newbox\""));
    assert!(!second.contains("\"mybox\""));
    // Only one managed block.
    assert_eq!(second.matches("# nixcfg:start").count(), 1);
}

#[test]
fn other_values_to_nix() {
    assert_eq!(value_to_nix(&OptionValue::Int(-3)), "-3");
    assert_eq!(value_to_nix(&OptionValue::Null), "null");
    let f = FloatText { plain: "0.5".into(), fixed: "0.50".into(), debug: "0.5".into() };
    assert_eq!(value_to_nix(&OptionValue::Float(f)), "0.5");
    let mut m = StringMap::new();
    m.insert("a".to_string(), OptionValue::Int(1));
    m.insert("b".to_string(), OptionValue::Str("x".into()));
    assert_eq!(value_to_nix(&OptionValue::Attrs(m)), "{ a = 1; b = \"x\"; }");
    assert_eq!(value_to_nix(&OptionValue::List(vec![])), "[  ]");
}

#[test]
fn block_lists_changes_sorted() {
    let mut changes = StringMap::new();
    changes.insert("z.last".to_string(), Some(OptionValue::Int(1)));
    changes.insert("a.first".to_string(), None);
    let block = generate_managed_block(&changes);
    assert_eq!(
        block,
        "# nixcfg:start  (managed by nixcfg — do not edit this block manually)\n  # a.first = <default>;\n  z.last = 1;\n# nixcfg:end"
    );
}

#[test]
fn block_goes_before_last_brace() {
    let mut changes = StringMap::new();
    changes.insert("a.b".to_string(), Some(OptionValue::Bool(false)));
    let out = apply_changes_to_source("{ x = 1; }", &changes);
    let block = generate_managed_block(&changes);
    assert_eq!(out, format!("{{ x = 1; \n  {block}\n}}"));
}

#[test]
fn block_appended_without_brace() {
    let mut changes = StringMap::new();
    changes.insert("a.b".to_string(), Some(OptionValue::Bool(false)));
    let out = apply_changes_to_source("x = 1;", &changes);
    let block = generate_managed_block(&changes);
    assert_eq!(out, format!("x = 1;\n{block}"));
}

#[test]
fn blank_source_gets_skeleton() {
    let changes: StringMap<Option<OptionValue>> = StringMap::new();
    let block = generate_managed_block(&changes);
    assert_eq!(apply_changes_to_source("  \n ", &changes), minimal_configuration_with_block(&block));
}

#[test]
fn rewriting_twice_equals_rewriting_once() {
    let mut c1 = StringMap::new();
    c1.insert("a".to_string(), Some(OptionValue::Int(1)));
    let mut c2 = StringMap::new();
    c2.insert("b".to_string(), Some(OptionValue::Int(2)));
    let src = "{ pre }\n# nixcfg:start old\n# nixcfg:end\npost";
    let once = apply_changes_to_source(src, &c2);
    let twice = apply_changes_to_source(&apply_changes_to_source(src, &c1), &c2);
    assert_eq!(once, twice);
    assert_eq!(once, format!("{{ pre }}\n{}\npost", generate_managed_block(&c2)));
}

#[test]
fn templates() {
    let flake = minimal_flake("box");
    assert!(flake.contains("nixosConfigurations.box = nixpkgs.lib.nixosSystem {"));
    assert!(flake.starts_with("{\n  description = \"NixOS configuration managed by nixcfg\";"));
    assert_eq!(
        minimal_configuration("box"),
        "{ config, pkgs, ... }:\n{\n  networking.hostName = \"box\";\n  system.stateVersion = \"24.05\";\n}\n"
    );
    assert_eq!(minimal_configuration_with_block("B"), "{ config, pkgs, ... }:\n{\nB\n}\n");
}

#[test]
fn writer_paths() {
    let w = FlakeWriter::new("/etc/nixos".to_string());
    assert_eq!(w.config_dir, "/etc/nixos");
    assert_eq!(w.flake_ref(), "/etc/nixos#");
    let mut changes = StringMap::new();
    changes.insert("a".to_string(), Some(OptionValue::Bool(true)));
    assert_eq!(w.updated_configuration("", &changes), apply_changes_to_source("", &changes));
}

#[test]
fn rebuild_reports() {
    assert_eq!(rebuild_outcome("switch", true, "out", "err"), Ok("out\nerr".to_string()));
    assert_eq!(
        rebuild_outcome("dry-run", false, "out", "boom"),
        Err("nixos-rebuild dry-run failed:\nboom".to_string())
    );
    let w = FlakeWriter::new("/cfg".to_string());
    assert_eq!(w.rebuild_args("switch"), vec!["switch", "--flake", "/cfg#"]);
}

#[test]
fn text_outside_block_kept() {
    let mut changes = StringMap::new();
    changes.insert("x".to_string(), Some(OptionValue::Bool(true)));
    let src = "head\n# nixcfg:start\nold\n# nixcfg:end tail";
    let out = apply_changes_to_source(src, &changes);
    assert!(out.starts_with("head\n"));
    assert!(out.ends_with(" tail"));
}

#[test]
fn strings_escaped_for_nix() {
    assert_eq!(value_to_nix(&OptionValue::Str(r"\".into())), r#""\\""#);
    assert_eq!(value_to_nix(&OptionValue::Str("${x}".into())), r#""\${x}""#);
    assert_eq!(value_to_nix(&OptionValue::Str("$x {y} $".into())), r#""$x {y} $""#);
    assert_eq!(value_to_nix(&OptionValue::Str(r#"a\"b"#.into())), r#""a\\\"b""#);
}

#[test]
fn block_ignores_insertion_order() {
    let mut a = StringMap::new();
    a.insert("b.two".to_string(), Some(OptionValue::Bool(true)));
    a.insert("a.one".to_string(), Some(OptionValue::Str("x".into())));
    a.insert("c.three".to_string(), None);
    let mut b = StringMap::new();
    b.insert("c.three".to_string(), None);
    b.insert("a.one".to_string(), Some(OptionValue::Str("x".into())));
    b.insert("b.two".to_string(), Some(OptionValue::Bool(true)));
    assert_eq!(generate_managed_block(&a), generate_managed_block(&b));
}

#[test]
fn nix_strings_read_back() {
    assert_eq!(value_to_nix(&OptionValue::Str(r"\".into())), r#""\\""#);
    assert_eq!(value_to_nix(&OptionValue::Str("${x} $y \"q\"".into())), r#""\${x} $y \"q\"""#);
    assert_eq!(value_to_nix(&OptionValue::Str("$${".into())), r#""$\${""#);
}
