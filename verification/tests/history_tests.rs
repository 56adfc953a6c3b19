use cardio_core::history::find_last_session_by_category;
use cardio_core::history::load_recent_sessions;
use cardio_core::types::MicrodoseSession;

const NOW: i64 = 1_700_000_000;

fn create_test_session(id: u128, def_id: &str, days_ago: i64) -> MicrodoseSession {
    let at = NOW - days_ago * 86400;
    MicrodoseSession {
        id,
        definition_id: def_id.to_owned(),
        performed_at: at,
        started_at: Some(at),
        completed_at: Some(at),
        actual_duration_seconds: Some(300),
        metrics_realized: vec![],
        perceived_rpe: Some(7),
        avg_hr: Some(145),
        max_hr: Some(165),
    }
}

#[test]
fn test_load_recent_sessions_from_wal() {
    let wal = vec![
        create_test_session(1, "vo2_1", 1),
        create_test_session(2, "vo2_2", 3),
        create_test_session(3, "vo2_3", 10),
    ];
    let csv: Vec<MicrodoseSession> = vec![];

    let sessions = load_recent_sessions(&wal, &csv, NOW, 7);
    assert_eq!(sessions.len(), 2);
}

#[test]
fn test_deduplication_across_wal_and_csv() {
    let shared = create_test_session(42, "vo2_1", 1);
    let wal = vec![shared.clone()];
    let csv = vec![shared.clone(), create_test_session(43, "vo2_2", 2)];

    let sessions = load_recent_sessions(&wal, &csv, NOW, 7);

    let found = sessions.iter().find(|s| s.id == 42);
    assert!(found.is_some());

    let count = sessions.iter().filter(|s| s.id == 42).count();
    assert_eq!(count, 1);
    assert_eq!(sessions.len(), 2);
}

#[test]
fn test_sessions_sorted_newest_first() {
    let old = create_test_session(1, "old", 5);
    let new = create_test_session(2, "new", 1);
    let wal = vec![old, new];
    let csv: Vec<MicrodoseSession> = vec![];

    let sessions = load_recent_sessions(&wal, &csv, NOW, 7);

    assert_eq!(sessions[0].definition_id, "new");
    assert_eq!(sessions[1].definition_id, "old");
}

#[test]
fn test_find_last_session_by_category() {
    let s1 = create_test_session(1, "emom_vo2", 3);
    let s2 = create_test_session(2, "gtg_pullup", 2);
    let s3 = create_test_session(3, "emom_vo2", 1);

    let sessions = vec![s3.clone(), s2, s1];

    let last_vo2 = find_last_session_by_category(&sessions, "vo2");
    assert!(last_vo2.is_some());
    assert_eq!(last_vo2.unwrap().id, s3.id);
}

#[test]
fn archive_only_history_still_loads() {
    let wal: Vec<MicrodoseSession> = vec![];
    let csv = vec![
        create_test_session(7, "mobility_hip_cars", 2),
        create_test_session(8, "gtg_pullup_band", 1),
    ];

    let sessions = load_recent_sessions(&wal, &csv, NOW, 7);
    assert_eq!(sessions.len(), 2);
    assert_eq!(sessions[0].id, 8);
}

#[test]
fn window_excludes_old_archive_rows() {
    let wal: Vec<MicrodoseSession> = vec![];
    let csv = vec![
        create_test_session(7, "mobility_hip_cars", 20),
        create_test_session(8, "gtg_pullup_band", 1),
    ];

    let sessions = load_recent_sessions(&wal, &csv, NOW, 7);
    assert_eq!(sessions.len(), 1);
    assert_eq!(sessions[0].id, 8);
}
