use cardio_core::config::default_burpee_rep_ceiling;
use cardio_core::config::default_equipment;
use cardio_core::config::default_kb_swing_max_reps;
use cardio_core::config::Config;
use cardio_core::strength::load_external_strength;
use cardio_core::strength::parse_session_type;
use cardio_core::types::StrengthSessionType;

#[test]
fn test_parse_session_types() {
    assert_eq!(parse_session_type("lower"), StrengthSessionType::Lower);
    assert_eq!(parse_session_type("UPPER"), StrengthSessionType::Upper);
    assert_eq!(parse_session_type("full"), StrengthSessionType::Full);
    assert_eq!(parse_session_type("full_body"), StrengthSessionType::Full);

    match parse_session_type("custom_session") {
        StrengthSessionType::Other(s) => assert_eq!(s, "custom_session"),
        _ => panic!("Expected Other variant"),
    }
}

#[test]
fn test_load_strength_signal() {
    let json = r#"{
        "last_session_at": "2024-01-15T10:30:00Z",
        "session_type": "lower"
    }"#;

    let signal = load_external_strength(Some(json));
    assert!(signal.is_some());

    let signal = signal.unwrap();
    assert_eq!(signal.session_type, StrengthSessionType::Lower);
    assert_eq!(signal.last_session_at, 1705314600);
}

#[test]
fn test_load_nonexistent_returns_none() {
    let signal = load_external_strength(None);
    assert!(signal.is_none());
}

#[test]
fn malformed_signal_reads_as_none() {
    let signal = load_external_strength(Some("{ invalid json }"));
    assert!(signal.is_none());
}

#[test]
fn test_load_upper_session() {
    let json = r#"{
        "last_session_at": "2024-01-15T14:00:00Z",
        "session_type": "upper"
    }"#;

    let signal = load_external_strength(Some(json)).unwrap();
    assert_eq!(signal.session_type, StrengthSessionType::Upper);
    assert_eq!(signal.last_session_at, 1705327200);
}

#[test]
fn signal_with_offset_timestamp_converts_to_utc() {
    let json = r#"{"last_session_at": "2024-01-15T10:30:00+02:00", "session_type": "lower"}"#;
    let signal = load_external_strength(Some(json)).unwrap();
    assert_eq!(signal.last_session_at, 1705314600 - 2 * 3600);
}

#[test]
fn signal_missing_fields_reads_as_none() {
    assert!(load_external_strength(Some(r#"{"session_type": "lower"}"#)).is_none());
    assert!(load_external_strength(Some(r#"{"last_session_at": "2024-01-15T10:30:00Z"}"#)).is_none());
    assert!(load_external_strength(Some(r#"{"last_session_at": "yesterday", "session_type": "lower"}"#)).is_none());
}

#[test]
fn session_type_folds_mixed_case() {
    assert_eq!(parse_session_type("Full_Body"), StrengthSessionType::Full);
    assert_eq!(parse_session_type("FullBody"), StrengthSessionType::Full);
    match parse_session_type("Custom-Session") {
        StrengthSessionType::Other(s) => assert_eq!(s, "custom-session"),
        _ => panic!("Expected Other variant"),
    }
}

#[test]
fn session_type_folds_unicode_case() {
    match parse_session_type("KR\u{c4}FTIGUNG") {
        StrengthSessionType::Other(s) => assert_eq!(s, "kr\u{e4}ftigung"),
        _ => panic!("Expected Other variant"),
    }
}

#[test]
fn test_default_config() {
    let config = Config::default();
    assert!(!config.equipment.available.is_empty());
    assert_eq!(config.progression.burpee_rep_ceiling, 10);
    assert_eq!(config.progression.kb_swing_max_reps, 15);
}

#[test]
fn default_values_match_catalog_expectations() {
    assert_eq!(default_burpee_rep_ceiling(), 10);
    assert_eq!(default_kb_swing_max_reps(), 15);
    let equipment = default_equipment();
    assert_eq!(equipment, vec!["kettlebell", "pullup_bar", "bands"]);
}
