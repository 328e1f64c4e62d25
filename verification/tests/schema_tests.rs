use flaky::{top_level_category, NixOption, OptionType, OptionValue, SchemaStore};

fn make_opt(name: &str) -> NixOption {
    NixOption {
        name: name.into(),
        description: format!("Option {name}"),
        option_type: OptionType::Bool,
        default: Some(OptionValue::Bool(false)),
        example: None,
        declared: true,
        declared_in: None,
    }
}

fn sample_store() -> SchemaStore {
    SchemaStore::from_options(vec![
        make_opt("boot.loader.grub.enable"),
        make_opt("boot.loader.grub.device"),
        make_opt("networking.hostName"),
        make_opt("networking.firewall.enable"),
        make_opt("services.openssh.enable"),
        make_opt("services.openssh.permitRootLogin"),
    ])
}

#[test]
fn categories() {
    let store = sample_store();
    let cats = store.category_names();
    assert!(cats.contains(&"boot"));
    assert!(cats.contains(&"networking"));
    assert!(cats.contains(&"services"));
}

#[test]
fn search_finds_by_name() {
    let store = sample_store();
    let results = store.search("openssh");
    assert_eq!(results.len(), 2);
}

#[test]
fn search_is_case_insensitive() {
    let store = sample_store();
    assert!(!store.search("GRUB").is_empty());
}

#[test]
fn category_names_are_sorted() {
    let store = SchemaStore::from_options(vec![
        make_opt("users.mutableUsers"),
        make_opt("boot.x"),
        make_opt("services.y"),
        make_opt("boot.z"),
    ]);
    assert_eq!(store.category_names(), vec!["boot", "services", "users"]);
}

#[test]
fn search_ranks_name_hits_first() {
    let mut desc_only = make_opt("a.first");
    desc_only.description = "mentions needle here".into();
    let store = SchemaStore::from_options(vec![
        desc_only,
        make_opt("b.needle"),
        make_opt("c.other"),
    ]);
    let names: Vec<&str> = store.search("NEEDLE").iter().map(|o| o.name.as_str()).collect();
    assert_eq!(names, vec!["b.needle", "a.first"]);
    let same: Vec<&str> = store.search("needle").iter().map(|o| o.name.as_str()).collect();
    assert_eq!(names, same);
}

#[test]
fn search_ties_go_by_name() {
    let store = SchemaStore::from_options(vec![make_opt("z.key"), make_opt("a.key")]);
    let names: Vec<&str> = store.search("key").iter().map(|o| o.name.as_str()).collect();
    assert_eq!(names, vec!["a.key", "z.key"]);
}

#[test]
fn later_option_replaces_same_name() {
    let mut second = make_opt("boot.x");
    second.description = "second".into();
    let store = SchemaStore::from_options(vec![make_opt("boot.x"), second]);
    assert_eq!(store.len(), 1);
    assert_eq!(store.option_named("boot.x").unwrap().description, "second");
    assert!(store.option_named("boot.y").is_none());
}

#[test]
fn children_one_level_down() {
    let store = SchemaStore::from_options(vec![
        make_opt("services"),
        make_opt("services.openssh"),
        make_opt("services.openssh.enable"),
        make_opt("services.nginx.enable"),
    ]);
    let kids: Vec<&str> = store.children_of("services").iter().map(|o| o.name.as_str()).collect();
    assert_eq!(kids, vec!["services.openssh"]);
    let roots: Vec<&str> = store.children_of("").iter().map(|o| o.name.as_str()).collect();
    assert_eq!(roots, vec!["services"]);
}

#[test]
fn top_level_category_of_names() {
    assert_eq!(top_level_category("networking.hostName"), "networking");
    assert_eq!(top_level_category("plain"), "plain");
}

#[test]
fn empty_store() {
    let store = SchemaStore::from_options(vec![]);
    assert!(store.is_empty());
    assert_eq!(store.len(), 0);
    assert!(store.category_names().is_empty());
    assert!(store.search("x").is_empty());
}

#[test]
fn search_folds_unicode_case() {
    let mut o = make_opt("i18n.straße");
    o.description = "ÄÖÜ umlauts".into();
    let store = SchemaStore::from_options(vec![o, make_opt("other.x")]);
    assert_eq!(store.search("STRASSE").len(), 0);
    assert_eq!(store.search("STRAßE").len(), 1);
    assert_eq!(store.search("äöü").len(), 1);
    assert_eq!(store.search("ÄÖÜ")[0].name, "i18n.straße");
}

#[test]
fn category_names_once_each_in_order() {
    let store = SchemaStore::from_options(vec![
        make_opt("users.users.root.shell"),
        make_opt("boot.loader.grub.enable"),
        make_opt("users.mutableUsers"),
        make_opt("boot.kernelPackages"),
        make_opt("time"),
    ]);
    assert_eq!(store.category_names(), vec!["boot", "time", "users"]);
}

#[test]
fn store_keeps_first_order_and_last_value() {
    let mut second = make_opt("a.x");
    second.description = "second".into();
    let store = SchemaStore::from_options(vec![make_opt("b.y"), make_opt("a.x"), make_opt("c.z"), second]);
    let names: Vec<&str> = (0..store.len()).map(|i| store.option_at(i).unwrap().0.as_str()).collect();
    assert_eq!(names, vec!["b.y", "a.x", "c.z"]);
    assert_eq!(store.option_named("a.x").unwrap().description, "second");
}

#[test]
fn search_lists_each_match_once() {
    let store = sample_store();
    let found: Vec<&str> = store.search("openssh").iter().map(|o| o.name.as_str()).collect();
    assert_eq!(found, vec!["services.openssh.enable", "services.openssh.permitRootLogin"]);
    let all = store.search("option");
    assert_eq!(all.len(), 6);
    for i in 0..all.len() {
        for j in (i + 1)..all.len() {
            assert_ne!(all[i].name, all[j].name);
        }
    }
}

#[test]
fn children_of_root_and_deeper() {
    let store = SchemaStore::from_options(vec![
        make_opt("boot"),
        make_opt("boot.loader"),
        make_opt("boot.loader.grub"),
        make_opt("boot.loader.grub.enable"),
        make_opt("networking"),
    ]);
    let roots: Vec<&str> = store.children_of("").iter().map(|o| o.name.as_str()).collect();
    assert_eq!(roots, vec!["boot", "networking"]);
    let kids: Vec<&str> = store.children_of("boot.loader").iter().map(|o| o.name.as_str()).collect();
    assert_eq!(kids, vec!["boot.loader.grub"]);
    assert!(store.children_of("networking").is_empty());
}

#[test]
fn children_are_every_option_one_level_down() {
    let store = SchemaStore::from_options(vec![
        make_opt("networking.hostName"),
        make_opt("networking.firewall.enable"),
        make_opt("networking.firewall"),
        make_opt("networking.domain"),
        make_opt("time.timeZone"),
    ]);
    let kids: Vec<&str> = store.children_of("networking").iter().map(|o| o.name.as_str()).collect();
    assert_eq!(kids, vec!["networking.hostName", "networking.firewall", "networking.domain"]);
    assert!(store.children_of("boot").is_empty());
}

#[test]
fn root_children_are_dotless_options_by_name() {
    let store = SchemaStore::from_options(vec![
        make_opt("zram"),
        make_opt("boot.loader.grub.enable"),
        make_opt("appstream"),
        make_opt("boot"),
    ]);
    let roots: Vec<&str> = store.children_of("").iter().map(|o| o.name.as_str()).collect();
    assert_eq!(roots, vec!["appstream", "boot", "zram"]);
    let sized = SchemaStore::from_options(vec![make_opt("a.b"), make_opt("a.b"), make_opt("c")]);
    assert_eq!(sized.len(), 2);
    assert!(SchemaStore::from_options(vec![]).is_empty());
}
