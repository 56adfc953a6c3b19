use cardio_core::config::Config;
use cardio_core::progression::increase_intensity;
use cardio_core::progression::upgrade_burpee;
use cardio_core::progression::upgrade_kb_swing;
use cardio_core::progression::upgrade_pullup;
use cardio_core::types::BurpeeStyle;
use cardio_core::types::MovementStyle;
use cardio_core::types::ProgressionState;
use cardio_core::types::UserMicrodoseState;

const NOW: i64 = 1_700_000_000;

#[test]
fn test_burpee_reps_progression() {
    let mut state = ProgressionState {
        reps: 3,
        style: MovementStyle::Burpee(BurpeeStyle::FourCount),
        level: 0,
        last_upgraded: None,
    };

    for expected_reps in 4..=10 {
        upgrade_burpee(&mut state, 10, NOW);
        assert_eq!(state.reps, expected_reps);
    }
}

#[test]
fn test_burpee_style_upgrade() {
    let mut state = ProgressionState {
        reps: 10,
        style: MovementStyle::Burpee(BurpeeStyle::FourCount),
        level: 7,
        last_upgraded: None,
    };

    upgrade_burpee(&mut state, 10, NOW);
    assert!(matches!(
        state.style,
        MovementStyle::Burpee(BurpeeStyle::SixCount)
    ));
    assert_eq!(state.reps, 6);
}

#[test]
fn burpee_ladder_step_increments_level_once() {
    let mut state = ProgressionState {
        reps: 10,
        style: MovementStyle::Burpee(BurpeeStyle::FourCount),
        level: 7,
        last_upgraded: None,
    };

    upgrade_burpee(&mut state, 10, NOW);
    assert_eq!(state.level, 8);
    assert_eq!(state.last_upgraded, Some(NOW));
}

#[test]
fn test_burpee_full_progression() {
    let mut state = ProgressionState {
        reps: 3,
        style: MovementStyle::Burpee(BurpeeStyle::FourCount),
        level: 0,
        last_upgraded: None,
    };

    for _ in 0..7 {
        upgrade_burpee(&mut state, 10, NOW);
    }

    upgrade_burpee(&mut state, 10, NOW);
    assert!(matches!(
        state.style,
        MovementStyle::Burpee(BurpeeStyle::SixCount)
    ));

    for _ in 0..4 {
        upgrade_burpee(&mut state, 10, NOW);
    }

    upgrade_burpee(&mut state, 10, NOW);
    assert!(matches!(
        state.style,
        MovementStyle::Burpee(BurpeeStyle::SixCountTwoPump)
    ));

    for _ in 0..5 {
        upgrade_burpee(&mut state, 10, NOW);
    }

    upgrade_burpee(&mut state, 10, NOW);
    assert!(matches!(state.style, MovementStyle::Burpee(BurpeeStyle::Seal)));
}

#[test]
fn test_kb_swing_progression() {
    let mut state = ProgressionState {
        reps: 5,
        style: MovementStyle::Plain,
        level: 0,
        last_upgraded: None,
    };

    upgrade_kb_swing(&mut state, 5, 15, NOW);
    assert_eq!(state.reps, 6);
    assert_eq!(state.level, 1);

    upgrade_kb_swing(&mut state, 5, 15, NOW);
    assert_eq!(state.reps, 7);
    assert_eq!(state.level, 2);
}

#[test]
fn test_kb_swing_respects_max() {
    let mut state = ProgressionState {
        reps: 14,
        style: MovementStyle::Plain,
        level: 9,
        last_upgraded: None,
    };

    upgrade_kb_swing(&mut state, 5, 15, NOW);
    assert_eq!(state.reps, 15);

    upgrade_kb_swing(&mut state, 5, 15, NOW);
    assert_eq!(state.reps, 15);
}

#[test]
fn test_pullup_progression() {
    let mut state = ProgressionState {
        reps: 3,
        style: MovementStyle::Plain,
        level: 0,
        last_upgraded: None,
    };

    for expected_reps in 4..=8 {
        upgrade_pullup(&mut state, 8, NOW);
        assert_eq!(state.reps, expected_reps);
    }

    upgrade_pullup(&mut state, 8, NOW);
    assert_eq!(state.reps, 8);
}

#[test]
fn test_increase_intensity_creates_state() {
    let mut user_state = UserMicrodoseState::default();
    let config = Config::default();

    increase_intensity("emom_burpee_5m", &mut user_state, &config, NOW);

    let state = user_state.progression_for("emom_burpee_5m").unwrap();
    assert_eq!(state.reps, 4);
    assert_eq!(state.level, 1);
}

#[test]
fn increase_intensity_unknown_definition_records_base() {
    let mut user_state = UserMicrodoseState::default();
    let config = Config::default();

    increase_intensity("mystery_def", &mut user_state, &config, NOW);

    let state = user_state.progression_for("mystery_def").unwrap();
    assert_eq!(state.reps, 3);
    assert_eq!(state.level, 0);
}
