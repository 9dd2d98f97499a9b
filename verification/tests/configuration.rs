use plugin_runtime::config::{Configuration, Value};
use plugin_runtime::file_config::{ConfigFileError, FileConfiguration};

#[test]
fn set_then_get_round_trips_on_top_level_keys() {
    let mut c = Configuration::new();
    c.set("motd", Value::Str("welcome".to_string()));
    c.set("port", Value::Int(25565));
    c.set("pvp", Value::Bool(true));

    assert_eq!(c.get_string("motd"), Some("welcome".to_string()));
    assert_eq!(c.get_int("port"), Some(25565));
    assert_eq!(c.get_bool("pvp"), Some(true));
}

#[test]
fn multi_segment_paths_always_read_as_absent() {
    let mut c = Configuration::new();
    c.set("database.host", Value::Str("localhost".to_string()));
    // The binding went under the last segment; the dotted path itself is
    // never resolvable.
    assert_eq!(c.get_string("database.host"), None);
    assert_eq!(c.get_string("host"), Some("localhost".to_string()));
    assert_eq!(c.get_int("a.b.c"), None);
    assert_eq!(c.get_bool("x.y"), None);
}

#[test]
fn setting_a_key_twice_keeps_the_last_value() {
    let mut c = Configuration::new();
    c.set("port", Value::Int(1));
    c.set("port", Value::Int(2));
    assert_eq!(c.get_int("port"), Some(2));
}

#[test]
fn typed_getters_reject_mistyped_values() {
    let mut c = Configuration::new();
    c.set("port", Value::Str("not a number".to_string()));
    assert_eq!(c.get_int("port"), None);
    assert_eq!(c.get_bool("port"), None);
    assert_eq!(c.get_string("port"), Some("not a number".to_string()));
    assert_eq!(c.get_string("missing"), None);
}

#[test]
fn defaults_fill_in_for_missing_keys() {
    let mut c = Configuration::new();
    c.set("name", Value::Str("pp".to_string()));
    assert_eq!(c.get_string_or("name", "fallback"), "pp".to_string());
    assert_eq!(c.get_string_or("other", "fallback"), "fallback".to_string());
    assert_eq!(c.get_int_or("threads", 4), 4);
    assert_eq!(c.get_bool_or("enabled", true), true);
}

#[test]
fn string_lists_keep_only_string_items() {
    let mut c = Configuration::new();
    c.set(
        "worlds",
        Value::List(vec![
            Value::Str("overworld".to_string()),
            Value::Int(3),
            Value::Str("nether".to_string()),
        ]),
    );
    assert_eq!(
        c.get_string_list("worlds"),
        Some(vec!["overworld".to_string(), "nether".to_string()])
    );
    assert_eq!(c.get_string_list("missing"), None);
    c.set("scalar", Value::Int(1));
    assert_eq!(c.get_string_list("scalar"), None);
}

#[test]
fn sections_resolve_their_own_top_level_keys() {
    let mut c = Configuration::new();
    c.set(
        "database",
        Value::Mapping(vec![
            ("host".to_string(), Value::Str("localhost".to_string())),
            ("port".to_string(), Value::Int(5432)),
            ("port".to_string(), Value::Int(5433)),
        ]),
    );
    let section = c.get_section("database").unwrap();
    assert_eq!(section.get_string("host"), Some("localhost".to_string()));
    // A repeated key keeps its last binding, as a mapping built entry by
    // entry does.
    assert_eq!(section.get_int("port"), Some(5433));
    assert!(c.get_section("missing").is_none());
    c.set("flat", Value::Int(0));
    assert!(c.get_section("flat").is_none());
}

#[test]
fn empty_configuration_answers_nothing() {
    let c = Configuration::default();
    assert_eq!(c.get_string("anything"), None);
    assert_eq!(c.get_value("anything").is_none(), true);
}

#[test]
fn file_text_wins_over_the_embedded_default() {
    let fc = FileConfiguration::new(
        "demo".to_string(),
        "plugins/demo".to_string(),
        Some(b"a: 1\n".to_vec()),
    );
    let r = fc.select_content(Some("a: 2\n".to_string()));
    assert_eq!(r.unwrap(), "a: 2\n".to_string());
}

#[test]
fn embedded_default_is_decoded_when_the_file_is_missing() {
    let fc = FileConfiguration::new(
        "demo".to_string(),
        "plugins/demo".to_string(),
        Some("motd: \u{00e9}l\u{00e9}gant\n".as_bytes().to_vec()),
    );
    // Were the bytes handed back unchanged rather than decoded, the
    // accented characters could not come out right.
    let r = fc.select_content(None);
    assert_eq!(r.unwrap(), "motd: \u{00e9}l\u{00e9}gant\n".to_string());
}

#[test]
fn missing_file_without_embedded_default_is_a_hard_error() {
    let fc = FileConfiguration::new("demo".to_string(), "plugins/demo".to_string(), None);
    assert!(matches!(
        fc.select_content(None),
        Err(ConfigFileError::MissingEmbeddedResource)
    ));
}

#[test]
fn invalid_utf8_in_the_embedded_default_is_rejected() {
    let fc = FileConfiguration::new(
        "demo".to_string(),
        "plugins/demo".to_string(),
        Some(vec![0xff, 0xfe, 0x00]),
    );
    assert!(matches!(fc.select_content(None), Err(ConfigFileError::InvalidUtf8)));
}

#[test]
fn default_config_is_written_only_when_the_file_is_missing() {
    let fc = FileConfiguration::new(
        "demo".to_string(),
        "plugins/demo".to_string(),
        Some(b"x: 1\n".to_vec()),
    );
    assert_eq!(fc.default_write_payload(true).unwrap(), None);
    assert_eq!(fc.default_write_payload(false).unwrap(), Some(b"x: 1\n".to_vec()));

    let bare = FileConfiguration::new("demo".to_string(), "plugins/demo".to_string(), None);
    assert!(matches!(
        bare.default_write_payload(false),
        Err(ConfigFileError::MissingEmbeddedResource)
    ));
    assert_eq!(bare.default_write_payload(true).unwrap(), None);
}

#[test]
fn resources_are_written_when_missing_or_replaced() {
    let fc = FileConfiguration::new(
        "demo".to_string(),
        "plugins/demo".to_string(),
        Some(b"data".to_vec()),
    );
    assert_eq!(fc.resource_write_payload(false, false).unwrap(), Some(b"data".to_vec()));
    assert_eq!(fc.resource_write_payload(true, true).unwrap(), Some(b"data".to_vec()));
    assert_eq!(fc.resource_write_payload(true, false).unwrap(), None);

    let bare = FileConfiguration::new("demo".to_string(), "plugins/demo".to_string(), None);
    assert!(matches!(
        bare.resource_write_payload(true, false),
        Err(ConfigFileError::MissingEmbeddedResource)
    ));
}

#[test]
fn values_deep_clone_structurally() {
    let v = Value::Mapping(vec![(
        "inner".to_string(),
        Value::List(vec![Value::Str("a".to_string()), Value::Null, Value::Other]),
    )]);
    let mut c = Configuration::new();
    c.set("outer", v);
    let section = c.get_section("outer").unwrap();
    let list = section.get_string_list("inner");
    assert_eq!(list, Some(vec!["a".to_string()]));
}
