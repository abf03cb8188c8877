use rust_agent::config::{ConfigEntry, ConfigValue, Settings, SettingsError};

fn text(key: &str, value: &str) -> ConfigEntry {
    ConfigEntry { key: key.to_string(), value: ConfigValue::Text(value.to_string()) }
}

fn list(key: &str, values: &[&str]) -> ConfigEntry {
    ConfigEntry {
        key: key.to_string(),
        value: ConfigValue::List(values.iter().map(|v| v.to_string()).collect()),
    }
}

fn complete() -> Vec<ConfigEntry> {
    vec![
        text("agents.model", "gemma4"),
        text("knowledge.include", ".*"),
        text("knowledge.exclude", "private"),
        text("knowledge.database_uri", "data/db"),
        text("knowledge.model", "embed"),
        list("knowledge.folders", &["docs", "notes"]),
        text("server.host", "127.0.0.1:8080"),
    ]
}

#[test]
fn complete_entries_build_the_settings() {
    let s = match Settings::build(&complete()) {
        Ok(s) => s,
        Err(_) => panic!("complete settings refused"),
    };
    assert_eq!(s.agents.model, "gemma4");
    assert_eq!(s.knowledge.include_pattern, ".*");
    assert_eq!(s.knowledge.exclude_pattern, "private");
    assert_eq!(s.knowledge.database_uri, "data/db");
    assert_eq!(s.knowledge.model, "embed");
    assert_eq!(s.knowledge.folders, vec!["docs".to_string(), "notes".to_string()]);
    assert_eq!(s.server.host, "127.0.0.1:8080");
}

#[test]
fn a_later_entry_overrides_an_earlier_one() {
    let mut entries = complete();
    entries.push(text("server.host", "0.0.0.0:9000"));
    entries.push(text("unrelated.key", "x"));
    let s = match Settings::build(&entries) {
        Ok(s) => s,
        Err(_) => panic!("refused"),
    };
    assert_eq!(s.server.host, "0.0.0.0:9000");
    assert_eq!(s.agents.model, "gemma4");
}

#[test]
fn a_missing_key_is_reported() {
    let entries: Vec<ConfigEntry> = complete().into_iter().filter(|e| e.key != "knowledge.model").collect();
    match Settings::build(&entries) {
        Err(SettingsError::Missing { key }) => assert_eq!(key, "knowledge.model"),
        _ => panic!("expected a missing key"),
    }
}

#[test]
fn the_first_problem_in_field_order_is_reported() {
    let entries = vec![text("server.host", "h"), list("agents.model", &["a"])];
    match Settings::build(&entries) {
        Err(SettingsError::WrongKind { key }) => assert_eq!(key, "agents.model"),
        _ => panic!("expected a wrong kind"),
    }
}

#[test]
fn folders_given_as_text_are_refused() {
    let mut entries = complete();
    entries.push(text("knowledge.folders", "docs"));
    match Settings::build(&entries) {
        Err(SettingsError::WrongKind { key }) => assert_eq!(key, "knowledge.folders"),
        _ => panic!("expected a wrong kind"),
    }
}

#[test]
fn no_entries_miss_the_agents_model() {
    match Settings::build(&Vec::new()) {
        Err(SettingsError::Missing { key }) => assert_eq!(key, "agents.model"),
        _ => panic!("expected a missing key"),
    }
}
