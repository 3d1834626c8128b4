//! Tests of identifier validation, sort-token parsing, and
//! configuration resolution.

use spanner_kv::config::Config;
use spanner_kv::key::UuidKey;
use spanner_kv::sort::SortOrder;

#[test]
fn test_uuid_canonical_accepted() {
    let k = UuidKey::parse("550e8400-e29b-41d4-a716-446655440000").unwrap();
    assert_eq!(k.as_str(), "550e8400-e29b-41d4-a716-446655440000");
}

#[test]
fn test_uuid_uppercase_lowercased() {
    let k = UuidKey::parse("550E8400-E29B-41D4-A716-446655440ABC").unwrap();
    assert_eq!(k.as_str(), "550e8400-e29b-41d4-a716-446655440abc");
}

#[test]
fn test_uuid_rejections() {
    let bad = [
        "not-a-uuid",
        "",
        "550e8400e29b41d4a716446655440000",              // no hyphens
        "{550e8400-e29b-41d4-a716-446655440000}",        // braced
        "urn:uuid:550e8400-e29b-41d4-a716-446655440000", // urn form
        "550e8400-e29b-41d4-a716-44665544000",           // too short
        "550e8400-e29b-41d4-a716-4466554400000",         // too long
        "550e8400_e29b_41d4_a716_446655440000",          // wrong separators
        "550e8400-e29b-41d4-a716-44665544000g",          // non-hex digit
        "550e8400-e29b-41d4-a71g-446655440000",          // non-hex digit inside
        "-550e8400e29b-41d4-a716-446655440000",          // hyphen misplaced
    ];
    for s in bad.iter() {
        assert!(UuidKey::parse(s).is_none(), "'{}' must be rejected", s);
    }
}

#[test]
fn test_sort_tokens_all_valid() {
    let cases = [
        ("key_asc", SortOrder::KeyAsc),
        ("key_desc", SortOrder::KeyDesc),
        ("created_asc", SortOrder::CreatedAsc),
        ("created_desc", SortOrder::CreatedDesc),
        ("updated_asc", SortOrder::UpdatedAsc),
        ("updated_desc", SortOrder::UpdatedDesc),
    ];
    for (token, expected) in cases.iter() {
        let got = SortOrder::parse(token);
        assert_eq!(got, Some(*expected), "Sort option '{}' should be valid", token);
    }
}

#[test]
fn test_sort_tokens_rejected() {
    for token in ["invalid_sort", "KEY_ASC", "key_asc ", " key_asc", "", "key"].iter() {
        assert_eq!(SortOrder::parse(token), None, "'{}' must be rejected", token);
    }
}

#[test]
fn test_sort_to_sql() {
    assert_eq!(SortOrder::KeyAsc.to_sql(), "id ASC");
    assert_eq!(SortOrder::KeyDesc.to_sql(), "id DESC");
    assert_eq!(SortOrder::CreatedAsc.to_sql(), "created_at ASC");
    assert_eq!(SortOrder::CreatedDesc.to_sql(), "created_at DESC");
    assert_eq!(SortOrder::UpdatedAsc.to_sql(), "updated_at ASC");
    assert_eq!(SortOrder::UpdatedDesc.to_sql(), "updated_at DESC");
}

#[test]
fn test_config_with_all_vars() {
    let config = Config::resolve(
        Some("localhost:9010".to_string()),
        Some("test-project".to_string()),
        Some("test-instance".to_string()),
        Some("test-database".to_string()),
        Some("8080".to_string()),
        Some("127.0.0.1".to_string()),
    )
    .unwrap();
    assert_eq!(config.spanner_emulator_host.as_deref(), Some("localhost:9010"));
    assert_eq!(config.spanner_project, "test-project");
    assert_eq!(config.spanner_instance, "test-instance");
    assert_eq!(config.spanner_database, "test-database");
    assert_eq!(config.service_port, 8080);
    assert_eq!(config.service_host, "127.0.0.1");
}

#[test]
fn test_config_with_defaults() {
    let config = Config::resolve(
        None,
        Some("test-project".to_string()),
        Some("test-instance".to_string()),
        Some("test-database".to_string()),
        None,
        None,
    )
    .unwrap();
    assert!(config.spanner_emulator_host.is_none());
    assert_eq!(config.service_port, 3000);
    assert_eq!(config.service_host, "0.0.0.0");
}

#[test]
fn test_missing_required_var() {
    let err = Config::resolve(None, None, None, None, None, None).unwrap_err();
    assert!(err.contains("SPANNER_PROJECT"));
    let err = Config::resolve(None, Some("test-project".to_string()), None, None, None, None)
        .unwrap_err();
    assert!(err.contains("SPANNER_INSTANCE"));
    let err = Config::resolve(
        None,
        Some("test-project".to_string()),
        Some("test-instance".to_string()),
        None,
        None,
        None,
    )
    .unwrap_err();
    assert!(err.contains("SPANNER_DATABASE"));
}

#[test]
fn test_invalid_port() {
    let err = Config::resolve(
        None,
        Some("p".to_string()),
        Some("i".to_string()),
        Some("d".to_string()),
        Some("not-a-number".to_string()),
        None,
    )
    .unwrap_err();
    assert!(err.contains("SERVICE_PORT"));
}

#[test]
fn test_port_out_of_range() {
    let r = Config::resolve(
        None,
        Some("p".to_string()),
        Some("i".to_string()),
        Some("d".to_string()),
        Some("99999".to_string()),
        None,
    );
    assert!(r.is_err());
}

#[test]
fn test_port_edge_values() {
    let ok = |port: &str| {
        Config::resolve(
            None,
            Some("p".to_string()),
            Some("i".to_string()),
            Some("d".to_string()),
            Some(port.to_string()),
            None,
        )
    };
    assert_eq!(ok("0").unwrap().service_port, 0);
    assert_eq!(ok("65535").unwrap().service_port, 65535);
    assert_eq!(ok("+8080").unwrap().service_port, 8080);
    assert_eq!(ok("007").unwrap().service_port, 7);
    assert!(ok("65536").is_err());
    assert!(ok("-1").is_err());
    assert!(ok("").is_err());
    assert!(ok("+").is_err());
    assert!(ok("80 ").is_err());
}

#[test]
fn test_config_log_startup_lines() {
    let config = Config::resolve(
        Some("localhost:9010".to_string()),
        Some("test-project".to_string()),
        Some("test-instance".to_string()),
        Some("test-database".to_string()),
        Some("8080".to_string()),
        Some("127.0.0.1".to_string()),
    )
    .unwrap();
    let lines = config.log_startup();
    assert_eq!(lines.len(), 6);
    assert_eq!(lines[0], "Configuration loaded:");
    assert_eq!(lines[1], "  Spanner emulator: localhost:9010");
    assert_eq!(lines[2], "  Spanner project: test-project");
    assert_eq!(lines[3], "  Spanner instance: test-instance");
    assert_eq!(lines[4], "  Spanner database: test-database");
    assert_eq!(lines[5], "  Service listening on: 127.0.0.1:8080");
}

#[test]
fn test_config_log_startup_without_emulator() {
    let config = Config::resolve(
        None,
        Some("p".to_string()),
        Some("i".to_string()),
        Some("d".to_string()),
        None,
        None,
    )
    .unwrap();
    let lines = config.log_startup();
    assert_eq!(lines[1], "  Spanner emulator: disabled (using production)");
    assert_eq!(lines[5], "  Service listening on: 0.0.0.0:3000");
}

#[test]
fn test_config_bind_addr() {
    let config = Config::resolve(
        None,
        Some("p".to_string()),
        Some("i".to_string()),
        Some("d".to_string()),
        None,
        None,
    )
    .unwrap();
    assert_eq!(config.bind_addr(), "0.0.0.0:3000");
}
