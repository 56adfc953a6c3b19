//! Progression rules for increasing workout intensity.
//!
//! Each movement type has its own monotonic upgrade rule: burpees climb to a
//! rep ceiling and then advance through a style ladder, kettlebell swings
//! progress linearly to a cap, and pullups progress by one rep to a fixed
//! ceiling (band selection stays manual).

use crate::config::Config;
use crate::types::BurpeeStyle;
use crate::types::MovementStyle;
use crate::types::MovementStyleView;
use crate::types::ProgressionState;
use crate::types::ProgressionStateView;
use crate::types::UserMicrodoseState;
use crate::types::UserStateView;
use vstd::prelude::*;

verus! {

/// The burpee upgrade rule: one more rep while below the ceiling; at the
/// ceiling, the next style with a style-appropriate rep reset; at the final
/// style, reps clamp at the ceiling.
pub open spec fn spec_upgrade_burpee(
    st: ProgressionStateView,
    rep_ceiling: i32,
    now: i64,
) -> ProgressionStateView {
    if st.reps < rep_ceiling {
        ProgressionStateView {
            reps: (st.reps + 1) as i32,
            style: st.style,
            level: (st.level + 1) as u32,
            last_upgraded: Some(now),
        }
    } else {
        let (style, reps) = match st.style {
            MovementStyleView::Burpee(BurpeeStyle::FourCount) => (
                MovementStyleView::Burpee(BurpeeStyle::SixCount),
                6int,
            ),
            MovementStyleView::Burpee(BurpeeStyle::SixCount) => (
                MovementStyleView::Burpee(BurpeeStyle::SixCountTwoPump),
                5int,
            ),
            MovementStyleView::Burpee(BurpeeStyle::SixCountTwoPump) => (
                MovementStyleView::Burpee(BurpeeStyle::Seal),
                4int,
            ),
            MovementStyleView::Burpee(BurpeeStyle::Seal) => (
                MovementStyleView::Burpee(BurpeeStyle::Seal),
                rep_ceiling as int,
            ),
            _ => (MovementStyleView::Burpee(BurpeeStyle::FourCount), 3int),
        };
        ProgressionStateView {
            reps: reps as i32,
            style: style,
            level: (st.level + 1) as u32,
            last_upgraded: Some(now),
        }
    }
}

/// Upgrades burpee intensity and records the upgrade time.
pub fn upgrade_burpee(state: &mut ProgressionState, rep_ceiling: i32, now: i64)
    requires
        old(state).level < u32::MAX,
    ensures
        final(state)@ == spec_upgrade_burpee(old(state)@, rep_ceiling, now),
{
    if state.reps < rep_ceiling {
        state.reps = state.reps + 1;
        state.level = state.level + 1;
        state.last_upgraded = Some(now);
        return ;
    }
    let (new_style, new_reps) = match &state.style {
        MovementStyle::Burpee(BurpeeStyle::FourCount) => (
            MovementStyle::Burpee(BurpeeStyle::SixCount),
            6,
        ),
        MovementStyle::Burpee(BurpeeStyle::SixCount) => (
            MovementStyle::Burpee(BurpeeStyle::SixCountTwoPump),
            5,
        ),
        MovementStyle::Burpee(BurpeeStyle::SixCountTwoPump) => (
            MovementStyle::Burpee(BurpeeStyle::Seal),
            4,
        ),
        MovementStyle::Burpee(BurpeeStyle::Seal) => (
            MovementStyle::Burpee(BurpeeStyle::Seal),
            rep_ceiling,
        ),
        _ => (MovementStyle::Burpee(BurpeeStyle::FourCount), 3),
    };
    state.style = new_style;
    state.reps = new_reps;
    state.level = state.level + 1;
    state.last_upgraded = Some(now);
}

/// The kettlebell swing upgrade rule: reps become
/// `min(base + level + 1, max)` while below the cap; at the cap nothing
/// changes.
pub open spec fn spec_upgrade_kb_swing(
    st: ProgressionStateView,
    base_reps: i32,
    max_reps: i32,
    now: i64,
) -> ProgressionStateView {
    if st.reps < max_reps {
        let target = base_reps + st.level + 1;
        ProgressionStateView {
            reps: (if target > max_reps {
                max_reps as int
            } else {
                target
            }) as i32,
            style: st.style,
            level: (st.level + 1) as u32,
            last_upgraded: Some(now),
        }
    } else {
        st
    }
}

/// Upgrades kettlebell swing intensity: a linear rep progression with a cap.
pub fn upgrade_kb_swing(state: &mut ProgressionState, base_reps: i32, max_reps: i32, now: i64)
    requires
        old(state).level < u32::MAX,
    ensures
        final(state)@ == spec_upgrade_kb_swing(old(state)@, base_reps, max_reps, now),
{
    if state.reps < max_reps {
        let target: i64 = base_reps as i64 + state.level as i64 + 1;
        let reps: i32 = if target > max_reps as i64 {
            max_reps
        } else {
            target as i32
        };
        state.reps = reps;
        state.level = state.level + 1;
        state.last_upgraded = Some(now);
    }
}

/// The pullup upgrade rule: one more rep up to a fixed ceiling; band
/// selection is never auto-adjusted.
pub open spec fn spec_upgrade_pullup(
    st: ProgressionStateView,
    max_reps: i32,
    now: i64,
) -> ProgressionStateView {
    if st.reps < max_reps {
        ProgressionStateView {
            reps: (st.reps + 1) as i32,
            style: st.style,
            level: (st.level + 1) as u32,
            last_upgraded: Some(now),
        }
    } else {
        st
    }
}

/// Upgrades pullup intensity: a rep progression to a fixed ceiling.
pub fn upgrade_pullup(state: &mut ProgressionState, max_reps: i32, now: i64)
    requires
        old(state).level < u32::MAX,
    ensures
        final(state)@ == spec_upgrade_pullup(old(state)@, max_reps, now),
{
    if state.reps < max_reps {
        state.reps = state.reps + 1;
        state.level = state.level + 1;
        state.last_upgraded = Some(now);
    }
}

/// Initial progression for a definition that has no recorded state yet.
pub open spec fn spec_initial_progression(def_id: Seq<char>) -> ProgressionStateView {
    if def_id == "emom_burpee_5m"@ {
        ProgressionStateView {
            reps: 3,
            style: MovementStyleView::Burpee(BurpeeStyle::FourCount),
            level: 0,
            last_upgraded: None,
        }
    } else if def_id == "emom_kb_swing_5m"@ {
        ProgressionStateView { reps: 5, style: MovementStyleView::Plain, level: 0, last_upgraded: None }
    } else {
        ProgressionStateView { reps: 3, style: MovementStyleView::Plain, level: 0, last_upgraded: None }
    }
}

/// The progression recorded after one "harder next time" request: the
/// movement-specific upgrade rule applied to the recorded state, or to the
/// initial state when none is recorded; an unknown definition only gets its
/// initial state recorded.
pub open spec fn spec_increase_intensity(
    st: UserStateView,
    def_id: Seq<char>,
    burpee_ceiling: i32,
    kb_max: i32,
    now: i64,
) -> ProgressionStateView {
    let base = match st.spec_progression_for(def_id) {
        Some(p) => p,
        None => spec_initial_progression(def_id),
    };
    if def_id == "emom_burpee_5m"@ {
        spec_upgrade_burpee(base, burpee_ceiling, now)
    } else if def_id == "emom_kb_swing_5m"@ {
        spec_upgrade_kb_swing(base, 5, kb_max, now)
    } else if def_id == "gtg_pullup_band"@ {
        spec_upgrade_pullup(base, 8, now)
    } else {
        base
    }
}

/// Applies one intensity upgrade for a definition, creating the progression
/// entry when it does not exist yet. All other entries and the mobility
/// cursor stay as they were.
pub fn increase_intensity(def_id: &str, user_state: &mut UserMicrodoseState, config: &Config, now: i64)
    requires
        match old(user_state)@.spec_progression_for(def_id@) {
            Some(p) => p.level < u32::MAX,
            None => true,
        },
    ensures
        final(user_state)@.spec_progression_for(def_id@) == Some(
            spec_increase_intensity(
                old(user_state)@,
                def_id@,
                config.progression.burpee_rep_ceiling,
                config.progression.kb_swing_max_reps,
                now,
            ),
        ),
        forall|k: Seq<char>|
            k != def_id@ ==> #[trigger] final(user_state)@.spec_progression_for(k) == old(
                user_state,
            )@.spec_progression_for(k),
        final(user_state)@.last_mobility_def_id == old(user_state)@.last_mobility_def_id,
{
    let mut state: ProgressionState = match user_state.progression_for(def_id) {
        Some(p) => p.clone(),
        None => initial_progression(def_id),
    };
    proof {
        assert(state@ == match old(user_state)@.spec_progression_for(def_id@) {
            Some(p) => p,
            None => spec_initial_progression(def_id@),
        });
    }
    if crate::strutil::str_eq(def_id, "emom_burpee_5m") {
        upgrade_burpee(&mut state, config.progression.burpee_rep_ceiling, now);
    } else if crate::strutil::str_eq(def_id, "emom_kb_swing_5m") {
        upgrade_kb_swing(&mut state, 5, config.progression.kb_swing_max_reps, now);
    } else if crate::strutil::str_eq(def_id, "gtg_pullup_band") {
        upgrade_pullup(&mut state, 8, now);
    }
    user_state.set_progression(def_id, state);
}

/// Initial progression values for a definition, before any upgrade.
pub fn initial_progression(def_id: &str) -> (r: ProgressionState)
    ensures
        r@ == spec_initial_progression(def_id@),
{
    if crate::strutil::str_eq(def_id, "emom_burpee_5m") {
        ProgressionState {
            reps: 3,
            style: MovementStyle::Burpee(BurpeeStyle::FourCount),
            level: 0,
            last_upgraded: None,
        }
    } else if crate::strutil::str_eq(def_id, "emom_kb_swing_5m") {
        ProgressionState { reps: 5, style: MovementStyle::Plain, level: 0, last_upgraded: None }
    } else {
        ProgressionState { reps: 3, style: MovementStyle::Plain, level: 0, last_upgraded: None }
    }
}

} // verus!
