use cardio_core::config::Config;
use cardio_core::csv_rollup::cleanup_processed_wals;
use cardio_core::csv_rollup::load_sessions_from_csv;
use cardio_core::csv_rollup::rollup_rows;
use cardio_core::engine::PrescribedMicrodose;
use cardio_core::flow::apply_user_action;
use cardio_core::flow::make_skip_marker;
use cardio_core::flow::FlowOutcome;
use cardio_core::flow::UserAction;
use cardio_core::types::BurpeeStyle;
use cardio_core::types::MetricSpec;
use cardio_core::types::MicrodoseSession;
use cardio_core::types::MovementStyle;
use cardio_core::types::ProgressionState;
use cardio_core::types::SessionKind;
use cardio_core::types::UserMicrodoseState;
use cardio_core::wal::read_sessions;
use cardio_core::wal::wal_record;
use cardio_core::wal::JsonlSink;

const NOW: i64 = 1_700_000_000;

fn build_test_session(id: u128) -> MicrodoseSession {
    MicrodoseSession {
        id,
        definition_id: "test_def".to_owned(),
        performed_at: NOW,
        started_at: Some(NOW),
        completed_at: Some(NOW),
        actual_duration_seconds: Some(300),
        metrics_realized: vec![],
        perceived_rpe: Some(7),
        avg_hr: Some(145),
        max_hr: Some(165),
    }
}

#[test]
fn test_append_and_read_single_session() {
    let session = build_test_session(11);
    let session_id = session.id;

    let mut wal = String::new();
    wal.push_str(&wal_record(&session));

    let sessions = read_sessions(Some(&wal));
    assert_eq!(sessions.len(), 1);
    assert_eq!(sessions[0].id, session_id);
}

#[test]
fn test_append_multiple_sessions() {
    let mut wal = String::new();
    for i in 0..5 {
        let session = build_test_session(i);
        wal.push_str(&wal_record(&session));
    }

    let sessions = read_sessions(Some(&wal));
    assert_eq!(sessions.len(), 5);
}

#[test]
fn test_read_empty_wal() {
    let sessions = read_sessions(None);
    assert!(sessions.is_empty());
}

#[test]
fn wal_round_trip_preserves_every_field() {
    let session = MicrodoseSession {
        id: 340282366920938463463374607431768211455,
        definition_id: "odd|id;with,specials\nand\\escapes".to_owned(),
        performed_at: -12345,
        started_at: None,
        completed_at: Some(9_999_999_999),
        actual_duration_seconds: None,
        metrics_realized: vec![
            MetricSpec::Reps {
                key: "reps".to_owned(),
                default: -2,
                min: -5,
                max: 10,
                step: 1,
                progressable: true,
            },
            MetricSpec::Band {
                key: "band".to_owned(),
                default: "red,blue".to_owned(),
                progressable: false,
            },
        ],
        perceived_rpe: Some(7),
        avg_hr: None,
        max_hr: Some(200),
    };

    let wal = wal_record(&session);
    let sessions = read_sessions(Some(&wal));
    assert_eq!(sessions.len(), 1);
    let back = &sessions[0];
    assert_eq!(back.id, session.id);
    assert_eq!(back.definition_id, session.definition_id);
    assert_eq!(back.performed_at, session.performed_at);
    assert_eq!(back.started_at, session.started_at);
    assert_eq!(back.completed_at, session.completed_at);
    assert_eq!(back.actual_duration_seconds, session.actual_duration_seconds);
    assert_eq!(back.metrics_realized.len(), 2);
    match &back.metrics_realized[0] {
        MetricSpec::Reps { key, default, min, max, step, progressable } => {
            assert_eq!(key, "reps");
            assert_eq!(*default, -2);
            assert_eq!(*min, -5);
            assert_eq!(*max, 10);
            assert_eq!(*step, 1);
            assert!(*progressable);
        }
        _ => panic!("expected a repetition metric"),
    }
    match &back.metrics_realized[1] {
        MetricSpec::Band { key, default, progressable } => {
            assert_eq!(key, "band");
            assert_eq!(default, "red,blue");
            assert!(!*progressable);
        }
        _ => panic!("expected a band metric"),
    }
    assert_eq!(back.perceived_rpe, session.perceived_rpe);
    assert_eq!(back.avg_hr, session.avg_hr);
    assert_eq!(back.max_hr, session.max_hr);
}

#[test]
fn malformed_wal_lines_are_skipped() {
    let mut wal = String::new();
    wal.push_str("{garbage line\n");
    wal.push_str(&wal_record(&build_test_session(5)));
    wal.push_str("another bad line\n");
    wal.push_str(&wal_record(&build_test_session(6)));

    let sessions = read_sessions(Some(&wal));
    assert_eq!(sessions.len(), 2);
    assert_eq!(sessions[0].id, 5);
    assert_eq!(sessions[1].id, 6);
}

#[test]
fn torn_final_wal_line_is_dropped() {
    let mut wal = String::new();
    wal.push_str(&wal_record(&build_test_session(5)));
    let torn = wal_record(&build_test_session(6));
    wal.push_str(&torn[..torn.len() / 2]);

    let sessions = read_sessions(Some(&wal));
    assert_eq!(sessions.len(), 1);
    assert_eq!(sessions[0].id, 5);
}

#[test]
fn jsonl_sink_remembers_its_path() {
    let sink = JsonlSink::new("wal/microdose_sessions.wal".to_owned());
    assert_eq!(sink.path(), "wal/microdose_sessions.wal");
}

#[test]
fn state_save_and_load_roundtrip() {
    let mut state = UserMicrodoseState::default();
    state.set_progression(
        "emom_burpee_5m",
        ProgressionState {
            reps: 5,
            style: MovementStyle::Plain,
            level: 2,
            last_upgraded: Some(NOW),
        },
    );
    state.last_mobility_def_id = Some("mobility_hip_cars".to_owned());

    let saved = state.save();
    let loaded = UserMicrodoseState::load(Some(&saved));

    assert_eq!(loaded.progressions.len(), 1);
    let p = loaded.progression_for("emom_burpee_5m").unwrap();
    assert_eq!(p.reps, 5);
    assert_eq!(p.level, 2);
    assert_eq!(p.last_upgraded, Some(NOW));
    assert_eq!(
        loaded.last_mobility_def_id,
        Some("mobility_hip_cars".to_owned())
    );
}

#[test]
fn state_roundtrip_keeps_styles() {
    let mut state = UserMicrodoseState::default();
    state.set_progression(
        "emom_burpee_5m",
        ProgressionState {
            reps: 6,
            style: MovementStyle::Burpee(BurpeeStyle::SixCountTwoPump),
            level: 12,
            last_upgraded: None,
        },
    );
    state.set_progression(
        "gtg_pullup_band",
        ProgressionState {
            reps: 4,
            style: MovementStyle::Band(cardio_core::types::BandSpec::NamedColour(
                "red".to_owned(),
            )),
            level: 1,
            last_upgraded: Some(-5),
        },
    );

    let loaded = UserMicrodoseState::load(Some(&state.save()));
    assert!(matches!(
        loaded.progression_for("emom_burpee_5m").unwrap().style,
        MovementStyle::Burpee(BurpeeStyle::SixCountTwoPump)
    ));
    match &loaded.progression_for("gtg_pullup_band").unwrap().style {
        MovementStyle::Band(cardio_core::types::BandSpec::NamedColour(c)) => {
            assert_eq!(c, "red")
        }
        _ => panic!("expected a banded style"),
    }
}

#[test]
fn test_load_nonexistent_returns_default() {
    let state = UserMicrodoseState::load(None);
    assert!(state.progressions.is_empty());
    assert_eq!(state.last_mobility_def_id, None);
}

#[test]
fn corrupted_state_degrades_to_default() {
    let state = UserMicrodoseState::load(Some("{ invalid json }"));
    assert!(state.progressions.is_empty());
    assert!(state.last_mobility_def_id.is_none());
}

#[test]
fn rollup_rows_round_trip_into_archive() {
    let sessions = vec![build_test_session(1), build_test_session(2)];
    let archive = rollup_rows(&sessions, true);

    assert!(archive.starts_with("id,definition_id,performed_at"));

    let back = load_sessions_from_csv(Some(&archive));
    assert_eq!(back.len(), 2);
    assert_eq!(back[0].id, 1);
    assert_eq!(back[1].id, 2);
    assert_eq!(back[0].definition_id, "test_def");
    assert!(back[0].metrics_realized.is_empty());
}

#[test]
fn rollup_appends_to_existing_archive() {
    let first = rollup_rows(&vec![build_test_session(1)], true);
    let second = rollup_rows(&vec![build_test_session(2)], false);
    let mut archive = first;
    archive.push_str(&second);

    let back = load_sessions_from_csv(Some(&archive));
    assert_eq!(back.len(), 2);
}

#[test]
fn empty_rollup_writes_no_rows() {
    let rows = rollup_rows(&vec![], false);
    assert!(rows.is_empty());
}

#[test]
fn test_cleanup_processed_wals() {
    let names = vec![
        "s1.wal.processed".to_owned(),
        "s2.wal.processed".to_owned(),
        "keep.wal".to_owned(),
    ];

    let removed = cleanup_processed_wals(&names);
    assert_eq!(removed.len(), 2);
    assert!(removed.contains(&"s1.wal.processed".to_owned()));
    assert!(removed.contains(&"s2.wal.processed".to_owned()));
    assert!(!removed.contains(&"keep.wal".to_owned()));
}

#[test]
fn cleanup_is_idempotent() {
    let names = vec![
        "s1.wal.processed".to_owned(),
        "keep.wal".to_owned(),
    ];

    let removed = cleanup_processed_wals(&names);
    let remaining: Vec<String> = names
        .iter()
        .filter(|n| !removed.contains(n))
        .cloned()
        .collect();
    let removed_again = cleanup_processed_wals(&remaining);
    assert!(removed_again.is_empty());
}

fn shown_prescription() -> PrescribedMicrodose {
    let catalog = cardio_core::catalog::build_default_catalog();
    let def = catalog
        .microdoses
        .iter()
        .find(|d| d.id == "mobility_hip_cars")
        .unwrap()
        .clone();
    PrescribedMicrodose {
        definition: def,
        reps: Some(3),
        style: Some(MovementStyle::Plain),
    }
}

#[test]
fn skip_persists_nothing() {
    let prescription = shown_prescription();
    let user_state = UserMicrodoseState::default();
    let config = Config::default();

    for _ in 0..4 {
        let outcome = apply_user_action(
            UserAction::Skip,
            &prescription,
            &user_state,
            &config,
            NOW,
            99,
        );
        assert!(matches!(outcome, FlowOutcome::Represcribe));
    }
}

#[test]
fn skip_marker_is_not_a_real_session() {
    let marker = make_skip_marker("mobility_hip_cars", NOW);
    assert!(marker.as_real().is_none());
    assert_eq!(marker.definition_id(), "mobility_hip_cars");
    assert_eq!(marker.timestamp(), NOW);
    assert!(matches!(marker, SessionKind::ShownButSkipped { .. }));
}

#[test]
fn done_produces_session_and_state() {
    let prescription = shown_prescription();
    let user_state = UserMicrodoseState::default();
    let config = Config::default();

    let outcome = apply_user_action(
        UserAction::Done,
        &prescription,
        &user_state,
        &config,
        NOW,
        7,
    );
    match outcome {
        FlowOutcome::Complete { session, state } => {
            assert_eq!(session.id, 7);
            assert_eq!(session.definition_id, "mobility_hip_cars");
            assert_eq!(session.performed_at, NOW);
            assert!(state.progression_for("mobility_hip_cars").is_some());
            assert_eq!(
                state.last_mobility_def_id,
                Some("mobility_hip_cars".to_owned())
            );
        }
        _ => panic!("expected a completed outcome"),
    }
}

#[test]
fn harder_produces_state_without_session() {
    let catalog = cardio_core::catalog::build_default_catalog();
    let def = catalog
        .microdoses
        .iter()
        .find(|d| d.id == "emom_burpee_5m")
        .unwrap()
        .clone();
    let prescription = PrescribedMicrodose {
        definition: def,
        reps: Some(3),
        style: Some(MovementStyle::Burpee(BurpeeStyle::FourCount)),
    };
    let user_state = UserMicrodoseState::default();
    let config = Config::default();

    let outcome = apply_user_action(
        UserAction::Harder,
        &prescription,
        &user_state,
        &config,
        NOW,
        7,
    );
    match outcome {
        FlowOutcome::Intensified { state } => {
            let p = state.progression_for("emom_burpee_5m").unwrap();
            assert_eq!(p.reps, 4);
            assert_eq!(p.level, 1);
        }
        _ => panic!("expected an intensified outcome"),
    }
}
