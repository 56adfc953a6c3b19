//! The decision step of an interactive prescription session: what one user
//! action does to the durable stores.
//!
//! A "skip" never persists: its outcome carries no session and no state, so
//! the log's bytes and the state document are untouched however many skips
//! happen in a row. Only "done" produces a session to append, and only
//! "done" and "harder" produce a state to save.

use crate::config::Config;
use crate::engine::PrescribedMicrodose;
use crate::progression::increase_intensity;
use crate::progression::spec_increase_intensity;
use crate::types::MetricSpec;
use crate::types::MicrodoseCategory;
use crate::types::MicrodoseSession;
use crate::types::MovementStyle;
use crate::types::ProgressionState;
use crate::types::SessionKind;
use crate::types::SessionKindView;
use crate::types::UserMicrodoseState;
use vstd::prelude::*;

verus! {

/// What the user decided about a shown prescription.
#[derive(Clone, Copy, Debug, PartialEq, Eq, Structural)]
pub enum UserAction {
    /// The session was performed: record it and keep the state current.
    Done,
    /// The prescription was declined: show another one, persist nothing.
    Skip,
    /// Raise the intensity for next time: save state, record no session.
    Harder,
}

/// What one user action asks the caller to persist.
#[derive(Debug)]
pub enum FlowOutcome {
    /// Nothing is persisted; the caller re-prescribes.
    Represcribe,
    /// The performed session is appended to the log and the state is saved.
    Complete { session: MicrodoseSession, state: UserMicrodoseState },
    /// Only the state is saved; no session is recorded.
    Intensified { state: UserMicrodoseState },
}

/// The session recorded when a prescription is completed now.
pub open spec fn spec_completed_session(
    p: PrescribedMicrodose,
    now: i64,
    session_id: u128,
) -> crate::types::SessionView {
    crate::types::SessionView {
        id: session_id,
        definition_id: p.definition@.id,
        performed_at: now,
        started_at: Some(now),
        completed_at: Some(now),
        actual_duration_seconds: Some(p.definition.suggested_duration_seconds),
        metrics_realized: Seq::<crate::types::MetricSpecView>::empty(),
        perceived_rpe: None,
        avg_hr: None,
        max_hr: None,
    }
}

/// An in-memory marker for a declined prescription. The marker is not a
/// session: no persistence operation accepts it, so it can never reach the
/// log, the archive or the state document.
pub fn make_skip_marker(definition_id: &str, shown_at: i64) -> (r: SessionKind)
    ensures
        r@ matches SessionKindView::ShownButSkipped { definition_id: d, shown_at: t } && d
            == definition_id@ && t == shown_at,
{
    let mut id = String::new();
    id.append(definition_id);
    proof {
        assert(id@ =~= definition_id@);
    }
    SessionKind::ShownButSkipped { definition_id: id, shown_at }
}

/// Applies one user action to a shown prescription.
///
/// A skip persists nothing, whatever came before: the outcome carries no
/// session and no state, so the log stays byte-for-byte as it was. Completing
/// yields the session to append plus the state with the definition's
/// progression present and, for a mobility prescription, the rotation cursor
/// advanced. Asking for harder work yields only the upgraded state.
pub fn apply_user_action(
    action: UserAction,
    prescription: &PrescribedMicrodose,
    user_state: &UserMicrodoseState,
    config: &Config,
    now: i64,
    session_id: u128,
) -> (r: FlowOutcome)
    requires
        action is Harder ==> (match old_progression_level(user_state, prescription) {
            Some(level) => level < u32::MAX,
            None => true,
        }),
    ensures
        action is Skip <==> r is Represcribe,
        action is Done <==> r is Complete,
        action is Harder <==> r is Intensified,
        r matches FlowOutcome::Complete { session, state } ==> {
            &&& session@ == spec_completed_session(*prescription, now, session_id)
            &&& state@.spec_progression_for(prescription.definition@.id) is Some
            &&& (match user_state@.spec_progression_for(prescription.definition@.id) {
                Some(p) => state@.spec_progression_for(prescription.definition@.id) == Some(p),
                None => true,
            })
            &&& (forall|k: Seq<char>|
                k != prescription.definition@.id ==> #[trigger] state@.spec_progression_for(k)
                    == user_state@.spec_progression_for(k))
            &&& (prescription.definition.category is Mobility ==> state@.last_mobility_def_id
                == Some(prescription.definition@.id))
            &&& (!(prescription.definition.category is Mobility) ==> state@.last_mobility_def_id
                == user_state@.last_mobility_def_id)
        },
        r matches FlowOutcome::Intensified { state } ==> {
            &&& state@.spec_progression_for(prescription.definition@.id) == Some(
                spec_increase_intensity(
                    user_state@,
                    prescription.definition@.id,
                    config.progression.burpee_rep_ceiling,
                    config.progression.kb_swing_max_reps,
                    now,
                ),
            )
            &&& (forall|k: Seq<char>|
                k != prescription.definition@.id ==> #[trigger] state@.spec_progression_for(k)
                    == user_state@.spec_progression_for(k))
            &&& state@.last_mobility_def_id == user_state@.last_mobility_def_id
        },
{
    match action {
        UserAction::Skip => FlowOutcome::Represcribe,
        UserAction::Done => {
            let session = MicrodoseSession {
                id: session_id,
                definition_id: prescription.definition.id.clone(),
                performed_at: now,
                started_at: Some(now),
                completed_at: Some(now),
                actual_duration_seconds: Some(prescription.definition.suggested_duration_seconds),
                metrics_realized: Vec::<MetricSpec>::new(),
                perceived_rpe: None,
                avg_hr: None,
                max_hr: None,
            };
            proof {
                assert(session@.metrics_realized =~= Seq::<crate::types::MetricSpecView>::empty());
                assert(session@ =~~= spec_completed_session(*prescription, now, session_id));
            }
            let mut state = user_state.clone();
            match state.progression_for(prescription.definition.id.as_str()) {
                Some(_) => {},
                None => {
                    let base = ProgressionState {
                        reps: match prescription.reps {
                            Some(v) => v,
                            None => 0,
                        },
                        style: match &prescription.style {
                            Some(s) => s.clone(),
                            None => MovementStyle::Plain,
                        },
                        level: 0,
                        last_upgraded: None,
                    };
                    state.set_progression(prescription.definition.id.as_str(), base);
                },
            }
            let ghost mid = state@;
            if matches!(prescription.definition.category, MicrodoseCategory::Mobility) {
                state.last_mobility_def_id = Some(prescription.definition.id.clone());
            }
            proof {
                assert(state@.progressions == mid.progressions);
                assert forall|k: Seq<char>| k != prescription.definition@.id implies
                    #[trigger] state@.spec_progression_for(k) == user_state@.spec_progression_for(
                    k,
                ) by {
                    assert(state@.spec_progression_for(k) == mid.spec_progression_for(k));
                    assert(mid.spec_progression_for(k) == user_state@.spec_progression_for(k));
                }
                assert(state@.spec_progression_for(prescription.definition@.id)
                    == mid.spec_progression_for(prescription.definition@.id));
            }
            FlowOutcome::Complete { session, state }
        },
        UserAction::Harder => {
            let mut state = user_state.clone();
            increase_intensity(prescription.definition.id.as_str(), &mut state, config, now);
            FlowOutcome::Intensified { state }
        },
    }
}

/// Level of the recorded progression for the prescribed definition, if any.
pub open spec fn old_progression_level(
    user_state: &UserMicrodoseState,
    prescription: &PrescribedMicrodose,
) -> Option<u32> {
    match user_state@.spec_progression_for(prescription.definition@.id) {
        Some(p) => Some(p.level),
        None => None,
    }
}

} // verus!
