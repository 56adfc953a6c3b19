use cardio_core::catalog::build_default_catalog;
use cardio_core::engine::compute_intensity;
use cardio_core::engine::prescribe_next;
use cardio_core::error::Error;
use cardio_core::types::BurpeeStyle;
use cardio_core::types::Catalog;
use cardio_core::types::ExternalStrengthSignal;
use cardio_core::types::MicrodoseCategory;
use cardio_core::types::MicrodoseSession;
use cardio_core::types::MovementStyle;
use cardio_core::types::ProgressionState;
use cardio_core::types::SessionKind;
use cardio_core::types::StrengthSessionType;
use cardio_core::types::UserContext;
use cardio_core::types::UserMicrodoseState;

const NOW: i64 = 1_700_000_000;

fn create_test_context() -> UserContext {
    UserContext {
        now: NOW,
        user_state: UserMicrodoseState::default(),
        recent_sessions: vec![],
        external_strength: None,
        equipment_available: vec![],
    }
}

fn real_session(def_id: &str, performed_at: i64) -> SessionKind {
    SessionKind::Real(MicrodoseSession {
        id: 1,
        definition_id: def_id.to_owned(),
        performed_at,
        started_at: Some(performed_at),
        completed_at: Some(performed_at),
        actual_duration_seconds: Some(300),
        metrics_realized: vec![],
        perceived_rpe: None,
        avg_hr: None,
        max_hr: None,
    })
}

#[test]
fn test_prescribe_vo2_when_no_history() {
    let catalog = build_default_catalog();
    let ctx = create_test_context();

    let prescribed = prescribe_next(&catalog, &ctx, None).unwrap();

    assert_eq!(prescribed.definition.category, MicrodoseCategory::Vo2);
}

#[test]
fn test_prescribe_gtg_after_lower_strength() {
    let catalog = build_default_catalog();
    let mut ctx = create_test_context();

    ctx.external_strength = Some(ExternalStrengthSignal {
        last_session_at: NOW - 12 * 3600,
        session_type: StrengthSessionType::Lower,
    });

    let prescribed = prescribe_next(&catalog, &ctx, None).unwrap();

    assert_eq!(prescribed.definition.category, MicrodoseCategory::Gtg);
}

#[test]
fn test_respects_target_category() {
    let catalog = build_default_catalog();
    let ctx = create_test_context();

    let prescribed = prescribe_next(&catalog, &ctx, Some(MicrodoseCategory::Mobility)).unwrap();

    assert_eq!(prescribed.definition.category, MicrodoseCategory::Mobility);
}

#[test]
fn test_compute_intensity_with_progression() {
    let catalog = build_default_catalog();
    let def = catalog
        .microdoses
        .iter()
        .find(|d| d.id == "emom_burpee_5m")
        .unwrap();

    let mut ctx = create_test_context();
    ctx.user_state.set_progression(
        "emom_burpee_5m",
        ProgressionState {
            reps: 7,
            style: MovementStyle::Burpee(BurpeeStyle::SixCount),
            level: 10,
            last_upgraded: Some(NOW),
        },
    );

    let (reps, style) = compute_intensity(def, &ctx);

    assert_eq!(reps, Some(7));
    assert!(matches!(
        style,
        Some(MovementStyle::Burpee(BurpeeStyle::SixCount))
    ));
}

#[test]
fn test_compute_intensity_without_progression() {
    let catalog = build_default_catalog();
    let def = catalog
        .microdoses
        .iter()
        .find(|d| d.id == "emom_burpee_5m")
        .unwrap();

    let ctx = create_test_context();

    let (reps, _style) = compute_intensity(def, &ctx);

    assert_eq!(reps, Some(3));
}

#[test]
fn strength_override_prefers_gtg_two_hours() {
    let catalog = build_default_catalog();
    let mut ctx = create_test_context();

    ctx.external_strength = Some(ExternalStrengthSignal {
        last_session_at: NOW - 2 * 3600,
        session_type: StrengthSessionType::Lower,
    });

    let prescribed = prescribe_next(&catalog, &ctx, None).unwrap();
    assert_eq!(prescribed.definition.category, MicrodoseCategory::Gtg);
}

#[test]
fn strength_override_ignores_upper_sessions() {
    let catalog = build_default_catalog();
    let mut ctx = create_test_context();

    ctx.external_strength = Some(ExternalStrengthSignal {
        last_session_at: NOW - 2 * 3600,
        session_type: StrengthSessionType::Upper,
    });

    let prescribed = prescribe_next(&catalog, &ctx, None).unwrap();
    assert_eq!(prescribed.definition.category, MicrodoseCategory::Vo2);
}

#[test]
fn vo2_recency_rule_fires_before_rotation() {
    let catalog = build_default_catalog();
    let mut ctx = create_test_context();

    // Most recent aerobic session is five hours old and there is no
    // strength signal: the recency rule prescribes aerobic work again.
    ctx.recent_sessions = vec![real_session("emom_kb_swing_5m_vo2", NOW - 5 * 3600)];

    let prescribed = prescribe_next(&catalog, &ctx, None).unwrap();
    assert_eq!(prescribed.definition.category, MicrodoseCategory::Vo2);
}

#[test]
fn rotation_moves_from_vo2_to_gtg() {
    let catalog = build_default_catalog();
    let mut ctx = create_test_context();

    // A fresh aerobic session (one hour old) suppresses the recency rule;
    // the rotation then moves on from aerobic work.
    ctx.recent_sessions = vec![real_session("emom_kb_swing_5m_vo2", NOW - 3600)];

    let prescribed = prescribe_next(&catalog, &ctx, None).unwrap();
    assert_eq!(prescribed.definition.category, MicrodoseCategory::Gtg);
}

fn mobility_def(id: &str) -> cardio_core::types::MicrodoseDefinition {
    cardio_core::types::MicrodoseDefinition {
        id: id.to_owned(),
        name: id.to_owned(),
        category: MicrodoseCategory::Mobility,
        suggested_duration_seconds: 120,
        gtg_friendly: true,
        blocks: vec![cardio_core::types::MicrodoseBlock {
            movement_id: "hip_cars".to_owned(),
            movement_style: MovementStyle::Plain,
            duration_hint_seconds: 120,
            metrics: vec![],
        }],
        reference_url: None,
    }
}

fn three_mobility_catalog() -> Catalog {
    let mut catalog = build_default_catalog();
    catalog.microdoses.retain(|d| d.category != MicrodoseCategory::Mobility);
    catalog.microdoses.push(mobility_def("mob_a"));
    catalog.microdoses.push(mobility_def("mob_b"));
    catalog.microdoses.push(mobility_def("mob_c"));
    catalog
}

#[test]
fn mobility_rotation_advances_cursor() {
    let catalog = three_mobility_catalog();
    let mut ctx = create_test_context();
    ctx.user_state.last_mobility_def_id = Some("mob_b".to_owned());

    let prescribed = prescribe_next(&catalog, &ctx, Some(MicrodoseCategory::Mobility)).unwrap();
    assert_eq!(prescribed.definition.id, "mob_c");
}

#[test]
fn mobility_rotation_without_cursor_takes_first() {
    let catalog = three_mobility_catalog();
    let ctx = create_test_context();

    let prescribed = prescribe_next(&catalog, &ctx, Some(MicrodoseCategory::Mobility)).unwrap();
    assert_eq!(prescribed.definition.id, "mob_a");
}

#[test]
fn mobility_rotation_wraps_around() {
    let catalog = three_mobility_catalog();
    let mut ctx = create_test_context();
    ctx.user_state.last_mobility_def_id = Some("mob_c".to_owned());

    let prescribed = prescribe_next(&catalog, &ctx, Some(MicrodoseCategory::Mobility)).unwrap();
    assert_eq!(prescribed.definition.id, "mob_a");
}

#[test]
fn vo2_round_robin_avoids_last_definition() {
    let catalog = build_default_catalog();
    let mut ctx = create_test_context();
    ctx.recent_sessions = vec![real_session("emom_burpee_5m", NOW - 3600)];

    let prescribed = prescribe_next(&catalog, &ctx, Some(MicrodoseCategory::Vo2)).unwrap();
    assert_eq!(prescribed.definition.id, "emom_kb_swing_5m");
}

#[test]
fn empty_category_yields_prescription_error() {
    let mut catalog = build_default_catalog();
    catalog.microdoses.retain(|d| d.category != MicrodoseCategory::Gtg);
    let ctx = create_test_context();

    let result = prescribe_next(&catalog, &ctx, Some(MicrodoseCategory::Gtg));
    assert!(matches!(result, Err(Error::Prescription(_))));
}
