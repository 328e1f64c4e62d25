use flaky::parser::{json_string_list, json_to_option_value, note_value};
use flaky::{FlakeParser, HostnameError, JsonValue, OptionValue, StringMap};

fn s(x: &str) -> JsonValue {
    JsonValue::String(x.to_string())
}

#[test]
fn parser_settings() {
    let p = FlakeParser::new("/etc/nixos".to_string());
    assert_eq!(p.flake_path, "/etc/nixos");
    assert_eq!(p.hostname, None);
    let p = p.with_hostname("box".to_string());
    assert_eq!(p.hostname.as_deref(), Some("box"));
    assert_eq!(p.flake_path, "/etc/nixos");
}

#[test]
fn expressions() {
    let p = FlakeParser::new("/f".to_string());
    assert_eq!(
        p.option_value_expr("box", "networking.hostName"),
        "(builtins.getFlake \"/f\").nixosConfigurations.\"box\".config.networking.hostName"
    );
    assert_eq!(p.hostnames_expr(), "builtins.attrNames (builtins.getFlake \"/f\").nixosConfigurations");
}

#[test]
fn choosing_a_host() {
    let p = FlakeParser::new("/f".to_string());
    assert_eq!(p.choose_hostname(None), Ok("flaky_machine".to_string()));
    assert_eq!(
        p.choose_hostname(Some(Some(JsonValue::Array(vec![s("alpha"), s("beta")])))),
        Ok("alpha".to_string())
    );
    assert_eq!(p.choose_hostname(Some(Some(JsonValue::Array(vec![])))), Err(HostnameError::NoConfigurations));
    assert_eq!(p.choose_hostname(Some(None)), Err(HostnameError::NoConfigurations));
    assert_eq!(p.choose_hostname(Some(Some(s("alpha")))), Err(HostnameError::NoConfigurations));
    assert_eq!(HostnameError::NoConfigurations.message(), "no nixosConfigurations found in flake");
    let q = FlakeParser::new("/f".to_string()).with_hostname("mine".to_string());
    assert_eq!(q.choose_hostname(Some(None)), Ok("mine".to_string()));
}

#[test]
fn reading_values() {
    assert_eq!(json_string_list(&JsonValue::Array(vec![s("a"), JsonValue::Null])), None);
    assert_eq!(json_string_list(&JsonValue::Array(vec![s("a")])), Some(vec!["a".to_string()]));
    assert_eq!(json_to_option_value(&s("x")), Some(OptionValue::Str("x".into())));
    let mut values = StringMap::new();
    note_value(&mut values, "a.b", Some(JsonValue::Bool(true)));
    note_value(&mut values, "a.c", None);
    assert_eq!(values.len(), 1);
    assert_eq!(values.get("a.b"), Some(&OptionValue::Bool(true)));
}
