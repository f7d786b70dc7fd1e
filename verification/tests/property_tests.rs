//! Behavior of the registry on concrete inputs: idempotent initialization,
//! replacement and merge of namespaces, path traversal, typed reads, and
//! reads from an untouched registry.

use zirv_config::store::Registry;
use zirv_config::value::ConfigValue;

fn server_config() -> ConfigValue {
    ConfigValue::Obj(vec![
        ("port".to_string(), ConfigValue::Int(3000)),
        ("host".to_string(), ConfigValue::Str("0.0.0.0".to_string())),
    ])
}

fn obj_get<'a>(entries: &'a [(String, ConfigValue)], key: &str) -> Option<&'a ConfigValue> {
    entries.iter().find(|(k, _)| k == key).map(|(_, v)| v)
}

#[test]
fn test_init_is_idempotent() {
    let mut registry = Registry::new();
    registry.init_config();
    registry.init_config();
    registry.init_config();
    // Still the empty configuration.
    assert_eq!(registry.get_config(), ConfigValue::Obj(vec![]));

    registry.register_config("server", server_config());
    // Initializing again after real use does not erase anything.
    registry.init_config();
    registry.init_config();
    assert_eq!(
        registry.get_config_by_key("server.port"),
        Some(ConfigValue::Int(3000))
    );
}

#[test]
fn test_register_replaces_namespace() {
    let mut registry = Registry::new();
    registry.register_config("ns", ConfigValue::Str("first".to_string()));
    registry.register_config("ns", ConfigValue::Int(2));

    // The namespace holds exactly the second value, with no trace of the first.
    assert_eq!(registry.get_config_by_key("ns"), Some(ConfigValue::Int(2)));
    if let ConfigValue::Obj(map) = registry.get_config() {
        assert_eq!(map.len(), 1);
        assert_eq!(obj_get(&map, "ns"), Some(&ConfigValue::Int(2)));
    } else {
        panic!("snapshot is not a mapping");
    }
}

#[test]
fn test_register_merges_namespaces() {
    let mut registry = Registry::new();
    registry.register_config("a", ConfigValue::Int(1));
    registry.register_config("b", ConfigValue::Int(2));

    if let ConfigValue::Obj(map) = registry.get_config() {
        assert_eq!(obj_get(&map, "a"), Some(&ConfigValue::Int(1)));
        assert_eq!(obj_get(&map, "b"), Some(&ConfigValue::Int(2)));
    } else {
        panic!("snapshot is not a mapping");
    }
}

#[test]
fn test_path_traversal() {
    let mut registry = Registry::new();
    registry.register_config("server", server_config());

    assert_eq!(
        registry.get_config_by_key("server.port"),
        Some(ConfigValue::Int(3000))
    );
    assert_eq!(
        registry.get_config_by_key("server.host"),
        Some(ConfigValue::Str("0.0.0.0".to_string()))
    );
    assert_eq!(registry.get_config_by_key("server.missing"), None);
    assert_eq!(registry.get_config_by_key("nonexistent.key"), None);
}

#[test]
fn test_non_mapping_prefix() {
    let mut registry = Registry::new();
    registry.register_config("flag", ConfigValue::Bool(true));

    assert_eq!(registry.get_config_by_key("flag"), Some(ConfigValue::Bool(true)));
    // Traversal through a non-mapping scalar fails cleanly.
    assert_eq!(registry.get_config_by_key("flag.sub"), None);
}

#[test]
fn test_typed_read_success() {
    let mut registry = Registry::new();
    registry.register_config("server", server_config());

    assert_eq!(registry.get_config_by_key_u16("server.port"), Some(3000u16));
    assert_eq!(registry.get_config_by_key_i64("server.port"), Some(3000i64));
    assert_eq!(
        registry.get_config_by_key_string("server.host"),
        Some("0.0.0.0".to_string())
    );
}

#[test]
fn test_typed_read_failure_collapses_to_absence() {
    let mut registry = Registry::new();
    registry.register_config("server", server_config());

    // A string cannot become an integer; the outcome equals plain absence.
    assert_eq!(registry.get_config_by_key_u16("server.host"), None);
    assert_eq!(registry.get_config_by_key_u16("server.gone"), None);
    // An integer is not a boolean or a string.
    assert_eq!(registry.get_config_by_key_bool("server.port"), None);
    assert_eq!(registry.get_config_by_key_string("server.port"), None);
}

#[test]
fn test_typed_read_out_of_range() {
    let mut registry = Registry::new();
    registry.register_config("big", ConfigValue::Int(70000));
    registry.register_config("negative", ConfigValue::Int(-1));

    assert_eq!(registry.get_config_by_key_u16("big"), None);
    assert_eq!(registry.get_config_by_key_u16("negative"), None);
    assert_eq!(registry.get_config_by_key_i64("big"), Some(70000i64));
    assert_eq!(registry.get_config_by_key_i64("negative"), Some(-1i64));
}

#[test]
fn test_numbers_beyond_i64_are_kept_exactly() {
    let mut registry = Registry::new();
    let big: i128 = u64::MAX as i128;
    registry.register_config("big", ConfigValue::Int(big));
    registry.register_config("small", ConfigValue::Int(i64::MIN as i128));

    assert_eq!(registry.get_config_by_key("big"), Some(ConfigValue::Int(big)));
    // Too large for a 64-bit signed read: collapses to absence.
    assert_eq!(registry.get_config_by_key_i64("big"), None);
    assert_eq!(registry.get_config_by_key_u16("big"), None);
    assert_eq!(registry.get_config_by_key_i64("small"), Some(i64::MIN));
}

#[test]
fn test_non_integer_numbers_round_trip_opaquely() {
    let mut registry = Registry::new();
    let bits = (0.5f64).to_bits();
    registry.register_config("ratio", ConfigValue::Float(bits));

    // The bit pattern comes back unchanged.
    assert_eq!(registry.get_config_by_key("ratio"), Some(ConfigValue::Float(bits)));
    assert_eq!(f64::from_bits(bits), 0.5f64);
    // A non-integer number converts to none of the integer shapes.
    assert_eq!(registry.get_config_by_key_u16("ratio"), None);
    assert_eq!(registry.get_config_by_key_i64("ratio"), None);
    assert_eq!(registry.get_config_by_key_bool("ratio"), None);
    assert_eq!(registry.get_config_by_key_string("ratio"), None);
}

#[test]
fn test_many_registrations_none_lost() {
    let mut registry = Registry::new();
    let names = ["one", "two", "three", "four", "five"];
    for (i, name) in names.iter().enumerate() {
        registry.register_config(name, ConfigValue::Int(i as i128));
    }

    if let ConfigValue::Obj(map) = registry.get_config() {
        assert_eq!(map.len(), names.len());
        for (i, name) in names.iter().enumerate() {
            assert_eq!(obj_get(&map, name), Some(&ConfigValue::Int(i as i128)));
        }
    } else {
        panic!("snapshot is not a mapping");
    }
}

#[test]
fn test_reads_on_untouched_registry() {
    let registry = Registry::new();
    assert_eq!(registry.get_config(), ConfigValue::Obj(vec![]));
    assert_eq!(registry.get_config_by_key("anything"), None);
    assert_eq!(registry.get_config_by_key("a.b.c"), None);
    assert_eq!(registry.get_config_by_key_u16("anything"), None);
    assert_eq!(registry.get_config_by_key_string(""), None);
}

#[test]
fn test_empty_segments_are_literal_keys() {
    let mut registry = Registry::new();
    registry.register_config("", ConfigValue::Int(7));
    // The empty path is one empty segment: a literal lookup of "".
    assert_eq!(registry.get_config_by_key(""), Some(ConfigValue::Int(7)));

    registry.register_config(
        "a",
        ConfigValue::Obj(vec![("".to_string(), ConfigValue::Int(1))]),
    );
    // A trailing dot asks for the empty key inside "a".
    assert_eq!(registry.get_config_by_key("a."), Some(ConfigValue::Int(1)));
    assert_eq!(registry.get_config_by_key("a.b"), None);
}

#[test]
fn test_nested_structures() {
    let mut registry = Registry::new();
    registry.register_config(
        "app",
        ConfigValue::Obj(vec![
            (
                "db".to_string(),
                ConfigValue::Obj(vec![
                    ("url".to_string(), ConfigValue::Str("localhost".to_string())),
                    ("pool".to_string(), ConfigValue::Int(8)),
                ]),
            ),
            (
                "tags".to_string(),
                ConfigValue::Arr(vec![ConfigValue::Int(1), ConfigValue::Int(2)]),
            ),
            ("nothing".to_string(), ConfigValue::Null),
        ]),
    );

    assert_eq!(
        registry.get_config_by_key("app.db.url"),
        Some(ConfigValue::Str("localhost".to_string()))
    );
    assert_eq!(registry.get_config_by_key_i64("app.db.pool"), Some(8));
    assert_eq!(
        registry.get_config_by_key("app.tags"),
        Some(ConfigValue::Arr(vec![ConfigValue::Int(1), ConfigValue::Int(2)]))
    );
    assert_eq!(registry.get_config_by_key("app.nothing"), Some(ConfigValue::Null));
    // A sequence is not a mapping: no traversal into it.
    assert_eq!(registry.get_config_by_key("app.tags.0"), None);
}

#[test]
fn test_snapshot_is_independent() {
    let mut registry = Registry::new();
    registry.register_config("server", server_config());
    let before = registry.get_config();
    registry.register_config("server", ConfigValue::Int(1));
    // The snapshot taken earlier is unaffected by the later registration.
    if let ConfigValue::Obj(map) = before {
        assert_eq!(obj_get(&map, "server"), Some(&server_config()));
    } else {
        panic!("snapshot is not a mapping");
    }
}
