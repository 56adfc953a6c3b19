//! Core domain types: movements, metrics, microdose definitions, sessions,
//! user state and progression tracking, and the strength signal.
//!
//! Identifiers are 128-bit values, timestamps are Unix seconds.

use vstd::prelude::*;

verus! {

/// Type of movement or exercise.
#[derive(Clone, Copy, Debug, PartialEq, Eq, Structural)]
pub enum MovementKind {
    KettlebellSwing,
    Burpee,
    Pullup,
    MobilityDrill,
}

/// Burpee variation styles, from easiest to hardest.
#[derive(Clone, Copy, Debug, PartialEq, Eq, Structural)]
pub enum BurpeeStyle {
    FourCount,
    SixCount,
    SixCountTwoPump,
    Seal,
}

/// Specification for resistance bands.
#[derive(Debug, PartialEq, Eq)]
pub enum BandSpec {
    NoBand,
    NamedColour(String),
}

/// Abstraction of a band specification.
#[verifier::ext_equal]
pub enum BandSpecView {
    NoBand,
    NamedColour(Seq<char>),
}

impl View for BandSpec {
    type V = BandSpecView;

    open spec fn view(&self) -> BandSpecView {
        match self {
            BandSpec::NoBand => BandSpecView::NoBand,
            BandSpec::NamedColour(c) => BandSpecView::NamedColour(c@),
        }
    }
}

/// Style variations for movements.
#[derive(Debug, PartialEq)]
pub enum MovementStyle {
    Plain,
    Burpee(BurpeeStyle),
    Band(BandSpec),
}

/// Abstraction of a movement style.
#[verifier::ext_equal]
pub enum MovementStyleView {
    Plain,
    Burpee(BurpeeStyle),
    Band(BandSpecView),
}

impl View for MovementStyle {
    type V = MovementStyleView;

    open spec fn view(&self) -> MovementStyleView {
        match self {
            MovementStyle::Plain => MovementStyleView::Plain,
            MovementStyle::Burpee(s) => MovementStyleView::Burpee(*s),
            MovementStyle::Band(b) => MovementStyleView::Band(b@),
        }
    }
}

/// A movement definition (for example a two-hand kettlebell swing).
#[derive(Debug)]
pub struct Movement {
    pub id: String,
    pub name: String,
    pub kind: MovementKind,
    pub default_style: MovementStyle,
    pub tags: Vec<String>,
    pub reference_url: Option<String>,
}

/// Abstraction of a movement.
#[verifier::ext_equal]
pub struct MovementView {
    pub id: Seq<char>,
    pub name: Seq<char>,
    pub kind: MovementKind,
    pub default_style: MovementStyleView,
    pub tags: Seq<Seq<char>>,
    pub reference_url: Option<Seq<char>>,
}

impl View for Movement {
    type V = MovementView;

    open spec fn view(&self) -> MovementView {
        MovementView {
            id: self.id@,
            name: self.name@,
            kind: self.kind,
            default_style: self.default_style@,
            tags: self.tags@.map_values(|t: String| t@),
            reference_url: match self.reference_url {
                Option::Some(u) => Option::Some(u@),
                Option::None => Option::None,
            },
        }
    }
}

/// Metric specification with type-safe variants.
#[derive(Debug)]
pub enum MetricSpec {
    /// Repetition-based metric (for example the number of swings).
    Reps { key: String, default: i32, min: i32, max: i32, step: i32, progressable: bool },
    /// Band specification metric (for example pullup assistance).
    Band { key: String, default: String, progressable: bool },
}

/// Abstraction of a metric specification.
#[verifier::ext_equal]
pub enum MetricSpecView {
    Reps { key: Seq<char>, default: i32, min: i32, max: i32, step: i32, progressable: bool },
    Band { key: Seq<char>, default: Seq<char>, progressable: bool },
}

impl View for MetricSpec {
    type V = MetricSpecView;

    open spec fn view(&self) -> MetricSpecView {
        match self {
            MetricSpec::Reps { key, default, min, max, step, progressable } => {
                MetricSpecView::Reps {
                    key: key@,
                    default: *default,
                    min: *min,
                    max: *max,
                    step: *step,
                    progressable: *progressable,
                }
            },
            MetricSpec::Band { key, default, progressable } => {
                MetricSpecView::Band {
                    key: key@,
                    default: default@,
                    progressable: *progressable,
                }
            },
        }
    }
}

/// A single work block within a microdose.
#[derive(Debug)]
pub struct MicrodoseBlock {
    pub movement_id: String,
    pub movement_style: MovementStyle,
    pub duration_hint_seconds: u32,
    pub metrics: Vec<MetricSpec>,
}

/// Abstraction of a work block.
#[verifier::ext_equal]
pub struct MicrodoseBlockView {
    pub movement_id: Seq<char>,
    pub movement_style: MovementStyleView,
    pub duration_hint_seconds: u32,
    pub metrics: Seq<MetricSpecView>,
}

impl View for MicrodoseBlock {
    type V = MicrodoseBlockView;

    open spec fn view(&self) -> MicrodoseBlockView {
        MicrodoseBlockView {
            movement_id: self.movement_id@,
            movement_style: self.movement_style@,
            duration_hint_seconds: self.duration_hint_seconds,
            metrics: self.metrics@.map_values(|m: MetricSpec| m@),
        }
    }
}

/// Category of microdose workout.
#[derive(Clone, Copy, Debug, PartialEq, Eq, Structural)]
pub enum MicrodoseCategory {
    Vo2,
    Gtg,
    Mobility,
}

/// A complete microdose workout definition.
#[derive(Debug)]
pub struct MicrodoseDefinition {
    pub id: String,
    pub name: String,
    pub category: MicrodoseCategory,
    pub suggested_duration_seconds: u32,
    pub gtg_friendly: bool,
    pub blocks: Vec<MicrodoseBlock>,
    pub reference_url: Option<String>,
}

/// Abstraction of a microdose definition.
#[verifier::ext_equal]
pub struct MicrodoseDefinitionView {
    pub id: Seq<char>,
    pub name: Seq<char>,
    pub category: MicrodoseCategory,
    pub suggested_duration_seconds: u32,
    pub gtg_friendly: bool,
    pub blocks: Seq<MicrodoseBlockView>,
    pub reference_url: Option<Seq<char>>,
}

impl View for MicrodoseDefinition {
    type V = MicrodoseDefinitionView;

    open spec fn view(&self) -> MicrodoseDefinitionView {
        MicrodoseDefinitionView {
            id: self.id@,
            name: self.name@,
            category: self.category,
            suggested_duration_seconds: self.suggested_duration_seconds,
            gtg_friendly: self.gtg_friendly,
            blocks: self.blocks@.map_values(|b: MicrodoseBlock| b@),
            reference_url: match self.reference_url {
                Option::Some(u) => Option::Some(u@),
                Option::None => Option::None,
            },
        }
    }
}

/// A recorded microdose session.
#[derive(Debug)]
pub struct MicrodoseSession {
    pub id: u128,
    pub definition_id: String,
    pub performed_at: i64,
    pub started_at: Option<i64>,
    pub completed_at: Option<i64>,
    pub actual_duration_seconds: Option<u32>,
    pub metrics_realized: Vec<MetricSpec>,
    pub perceived_rpe: Option<u8>,
    pub avg_hr: Option<u8>,
    pub max_hr: Option<u8>,
}

/// Abstraction of a recorded session.
#[verifier::ext_equal]
pub struct SessionView {
    pub id: u128,
    pub definition_id: Seq<char>,
    pub performed_at: i64,
    pub started_at: Option<i64>,
    pub completed_at: Option<i64>,
    pub actual_duration_seconds: Option<u32>,
    pub metrics_realized: Seq<MetricSpecView>,
    pub perceived_rpe: Option<u8>,
    pub avg_hr: Option<u8>,
    pub max_hr: Option<u8>,
}

impl View for MicrodoseSession {
    type V = SessionView;

    open spec fn view(&self) -> SessionView {
        SessionView {
            id: self.id,
            definition_id: self.definition_id@,
            performed_at: self.performed_at,
            started_at: self.started_at,
            completed_at: self.completed_at,
            actual_duration_seconds: self.actual_duration_seconds,
            metrics_realized: self.metrics_realized@.map_values(|m: MetricSpec| m@),
            perceived_rpe: self.perceived_rpe,
            avg_hr: self.avg_hr,
            max_hr: self.max_hr,
        }
    }
}

/// Type-level distinction between real sessions and skipped prescriptions.
///
/// A skipped prescription only perturbs the in-memory recent history; the
/// persistence operations accept `MicrodoseSession` values alone, so a
/// skipped entry can never reach the log, the archive or the state file.
#[derive(Debug)]
pub enum SessionKind {
    /// A real session that was performed and may be persisted.
    Real(MicrodoseSession),
    /// A prescription that was shown but skipped; in-memory only.
    ShownButSkipped { definition_id: String, shown_at: i64 },
}

/// Abstraction of a history entry.
#[verifier::ext_equal]
pub enum SessionKindView {
    Real(SessionView),
    ShownButSkipped { definition_id: Seq<char>, shown_at: i64 },
}

impl View for SessionKind {
    type V = SessionKindView;

    open spec fn view(&self) -> SessionKindView {
        match self {
            SessionKind::Real(s) => SessionKindView::Real(s@),
            SessionKind::ShownButSkipped { definition_id, shown_at } => {
                SessionKindView::ShownButSkipped {
                    definition_id: definition_id@,
                    shown_at: *shown_at,
                }
            },
        }
    }
}

impl SessionKindView {
    /// Definition identifier of either kind of history entry.
    pub open spec fn spec_definition_id(self) -> Seq<char> {
        match self {
            SessionKindView::Real(s) => s.definition_id,
            SessionKindView::ShownButSkipped { definition_id, .. } => definition_id,
        }
    }

    /// Timestamp of either kind of history entry.
    pub open spec fn spec_timestamp(self) -> i64 {
        match self {
            SessionKindView::Real(s) => s.performed_at,
            SessionKindView::ShownButSkipped { shown_at, .. } => shown_at,
        }
    }
}

impl SessionKind {
    /// The definition identifier, for both real and skipped entries.
    pub fn definition_id(&self) -> (r: &str)
        ensures
            r@ == self@.spec_definition_id(),
    {
        match self {
            SessionKind::Real(session) => session.definition_id.as_str(),
            SessionKind::ShownButSkipped { definition_id, .. } => definition_id.as_str(),
        }
    }

    /// The timestamp when this session or prescription occurred.
    pub fn timestamp(&self) -> (r: i64)
        ensures
            r == self@.spec_timestamp(),
    {
        match self {
            SessionKind::Real(session) => session.performed_at,
            SessionKind::ShownButSkipped { shown_at, .. } => *shown_at,
        }
    }

    /// The underlying real session, or `None` for a skipped prescription.
    pub fn as_real(&self) -> (r: Option<&MicrodoseSession>)
        ensures
            match r {
                Option::Some(s) => self@ matches SessionKindView::Real(v) && v == s@,
                Option::None => self@ is ShownButSkipped,
            },
    {
        match self {
            SessionKind::Real(session) => Option::Some(session),
            SessionKind::ShownButSkipped { .. } => Option::None,
        }
    }
}

/// Progression state for a specific microdose definition.
#[derive(Debug)]
pub struct ProgressionState {
    pub reps: i32,
    pub style: MovementStyle,
    pub level: u32,
    pub last_upgraded: Option<i64>,
}

/// Abstraction of a progression state.
#[verifier::ext_equal]
pub struct ProgressionStateView {
    pub reps: i32,
    pub style: MovementStyleView,
    pub level: u32,
    pub last_upgraded: Option<i64>,
}

impl View for ProgressionState {
    type V = ProgressionStateView;

    open spec fn view(&self) -> ProgressionStateView {
        ProgressionStateView {
            reps: self.reps,
            style: self.style@,
            level: self.level,
            last_upgraded: self.last_upgraded,
        }
    }
}

/// First value bound to a key in an association list, if any.
pub open spec fn assoc_lookup(
    entries: Seq<(Seq<char>, ProgressionStateView)>,
    key: Seq<char>,
) -> Option<ProgressionStateView>
    decreases entries.len(),
{
    if entries.len() == 0 {
        Option::None
    } else if entries[0].0 == key {
        Option::Some(entries[0].1)
    } else {
        assoc_lookup(entries.drop_first(), key)
    }
}

/// User's persistent state across sessions: per-definition progressions and
/// the mobility rotation cursor.
#[derive(Debug)]
pub struct UserMicrodoseState {
    pub progressions: Vec<(String, ProgressionState)>,
    pub last_mobility_def_id: Option<String>,
}

/// Abstraction of the persistent user state.
#[verifier::ext_equal]
pub struct UserStateView {
    pub progressions: Seq<(Seq<char>, ProgressionStateView)>,
    pub last_mobility_def_id: Option<Seq<char>>,
}

impl View for UserMicrodoseState {
    type V = UserStateView;

    open spec fn view(&self) -> UserStateView {
        UserStateView {
            progressions: self.progressions@.map_values(
                |e: (String, ProgressionState)| (e.0@, e.1@),
            ),
            last_mobility_def_id: match self.last_mobility_def_id {
                Option::Some(s) => Option::Some(s@),
                Option::None => Option::None,
            },
        }
    }
}

impl UserStateView {
    /// Progression recorded for a definition, if any.
    pub open spec fn spec_progression_for(self, def_id: Seq<char>) -> Option<ProgressionStateView> {
        assoc_lookup(self.progressions, def_id)
    }
}

impl Default for UserMicrodoseState {
    /// Fresh state: no progressions, no mobility cursor.
    fn default() -> (r: Self)
        ensures
            r@.progressions == Seq::<(Seq<char>, ProgressionStateView)>::empty(),
            r@.last_mobility_def_id is None,
    {
        let r = UserMicrodoseState { progressions: Vec::new(), last_mobility_def_id: Option::None };
        proof {
            assert(r@.progressions =~= Seq::<(Seq<char>, ProgressionStateView)>::empty());
        }
        r
    }
}

impl UserMicrodoseState {
    /// Progression recorded for a definition, if any.
    pub fn progression_for(&self, def_id: &str) -> (r: Option<&ProgressionState>)
        ensures
            match r {
                Option::Some(p) => self@.spec_progression_for(def_id@) == Option::Some(p@),
                Option::None => self@.spec_progression_for(def_id@) is None,
            },
    {
        let n = self.progressions.len();
        let mut i: usize = 0;
        proof {
            assert(self@.progressions.skip(0) =~= self@.progressions);
        }
        while i < n
            invariant
                n == self.progressions@.len(),
                i <= n,
                self@.progressions.len() == n,
                forall|j: int| 0 <= j < i ==> #[trigger] self@.progressions[j].0 != def_id@,
                assoc_lookup(self@.progressions, def_id@) == assoc_lookup(
                    self@.progressions.skip(i as int),
                    def_id@,
                ),
            decreases n - i,
        {
            proof {
                assert(self@.progressions[i as int] == (
                    self.progressions@[i as int].0@,
                    self.progressions@[i as int].1@,
                ));
            }
            if crate::strutil::str_eq(self.progressions[i].0.as_str(), def_id) {
                proof {
                    assert(self@.progressions.skip(i as int)[0] == self@.progressions[i as int]);
                }
                return Option::Some(&self.progressions[i].1);
            }
            proof {
                assert(self@.progressions.skip(i as int)[0] == self@.progressions[i as int]);
                assert(self@.progressions.skip(i as int).drop_first() =~= self@.progressions.skip(
                    i + 1,
                ));
            }
            i = i + 1;
        }
        proof {
            assert(self@.progressions.skip(n as int).len() == 0);
        }
        Option::None
    }

    /// Records a progression for a definition: replaces the first entry with
    /// that key, or appends a fresh one.
    pub fn set_progression(&mut self, def_id: &str, ps: ProgressionState)
        ensures
            final(self)@.spec_progression_for(def_id@) == Option::Some(ps@),
            forall|k: Seq<char>|
                k != def_id@ ==> #[trigger] final(self)@.spec_progression_for(k)
                    == old(self)@.spec_progression_for(k),
            final(self)@.last_mobility_def_id == old(self)@.last_mobility_def_id,
    {
        let n = self.progressions.len();
        let mut i: usize = 0;
        proof {
            assert(self@.progressions.skip(0) =~= self@.progressions);
        }
        while i < n
            invariant
                *self == *old(self),
                n == self.progressions@.len(),
                i <= n,
                forall|j: int| 0 <= j < i ==> #[trigger] self@.progressions[j].0 != def_id@,
            decreases n - i,
        {
            proof {
                assert(self@.progressions[i as int] == (
                    self.progressions@[i as int].0@,
                    self.progressions@[i as int].1@,
                ));
            }
            if crate::strutil::str_eq(self.progressions[i].0.as_str(), def_id) {
                let ghost oldview = self@.progressions;
                let key = self.progressions[i].0.clone();
                self.progressions.set(i, (key, ps));
                proof {
                    assert(self@.progressions =~~= oldview.update(i as int, (def_id@, ps@)));
                    lemma_assoc_update(oldview, self@.progressions, i as int, def_id@, ps@);
                }
                return ;
            }
            i = i + 1;
        }
        let ghost oldview = self@.progressions;
        let mut key = String::new();
        key.append(def_id);
        self.progressions.push((key, ps));
        proof {
            assert(key@ =~= def_id@);
            assert(self@.progressions =~~= oldview.push((def_id@, ps@)));
            lemma_assoc_append(oldview, def_id@, ps@);
        }
    }
}

/// Updating the entry at a position where the key first occurs changes the
/// lookup of that key alone.
proof fn lemma_assoc_update(
    olde: Seq<(Seq<char>, ProgressionStateView)>,
    newe: Seq<(Seq<char>, ProgressionStateView)>,
    i: int,
    key: Seq<char>,
    v: ProgressionStateView,
)
    requires
        0 <= i < olde.len(),
        newe == olde.update(i, (key, v)),
        olde[i].0 == key,
        forall|j: int| 0 <= j < i ==> #[trigger] olde[j].0 != key,
    ensures
        assoc_lookup(newe, key) == Option::Some(v),
        forall|k: Seq<char>| k != key ==> #[trigger] assoc_lookup(newe, k) == assoc_lookup(olde, k),
    decreases olde.len(),
{
    if i == 0 {
        assert(newe[0] == (key, v));
        assert(newe.drop_first() =~= olde.drop_first());
        assert(assoc_lookup(newe, key) == Option::Some(v));
        assert forall|k: Seq<char>| k != key implies #[trigger] assoc_lookup(newe, k)
            == assoc_lookup(olde, k) by {
            assert(assoc_lookup(newe, k) == assoc_lookup(newe.drop_first(), k));
            assert(assoc_lookup(olde, k) == assoc_lookup(olde.drop_first(), k));
        }
    } else {
        assert(newe[0] == olde[0]);
        assert(newe.drop_first() =~= olde.drop_first().update(i - 1, (key, v)));
        lemma_assoc_update(olde.drop_first(), newe.drop_first(), i - 1, key, v);
        assert(olde[0].0 != key);
        assert(assoc_lookup(newe, key) == assoc_lookup(newe.drop_first(), key));
        assert forall|k: Seq<char>| k != key implies #[trigger] assoc_lookup(newe, k)
            == assoc_lookup(olde, k) by {
            if newe[0].0 == k {
                assert(assoc_lookup(newe, k) == Option::Some(newe[0].1));
                assert(assoc_lookup(olde, k) == Option::Some(olde[0].1));
            } else {
                assert(assoc_lookup(newe, k) == assoc_lookup(newe.drop_first(), k));
                assert(assoc_lookup(olde, k) == assoc_lookup(olde.drop_first(), k));
                assert(assoc_lookup(newe.drop_first(), k) == assoc_lookup(olde.drop_first(), k));
            }
        }
    }
}

/// Appending an entry with an unseen key changes the lookup of that key alone.
proof fn lemma_assoc_append(
    olde: Seq<(Seq<char>, ProgressionStateView)>,
    key: Seq<char>,
    v: ProgressionStateView,
)
    requires
        forall|j: int| 0 <= j < olde.len() ==> #[trigger] olde[j].0 != key,
    ensures
        assoc_lookup(olde.push((key, v)), key) == Option::Some(v),
        forall|k: Seq<char>|
            k != key ==> #[trigger] assoc_lookup(olde.push((key, v)), k) == assoc_lookup(olde, k),
    decreases olde.len(),
{
    let grown = olde.push((key, v));
    if olde.len() == 0 {
        assert(grown[0] == (key, v));
        assert(grown.drop_first() =~= Seq::<(Seq<char>, ProgressionStateView)>::empty());
        assert forall|k: Seq<char>| k != key implies #[trigger] assoc_lookup(grown, k)
            == assoc_lookup(olde, k) by {
            assert(assoc_lookup(grown, k) == assoc_lookup(grown.drop_first(), k));
        }
    } else {
        assert(grown[0] == olde[0]);
        assert(grown.drop_first() =~= olde.drop_first().push((key, v)));
        lemma_assoc_append(olde.drop_first(), key, v);
        assert(olde[0].0 != key);
        assert(assoc_lookup(grown, key) == assoc_lookup(grown.drop_first(), key));
        assert forall|k: Seq<char>| k != key implies #[trigger] assoc_lookup(grown, k)
            == assoc_lookup(olde, k) by {
            if olde[0].0 == k {
                assert(assoc_lookup(grown, k) == Option::Some(olde[0].1));
            } else {
                assert(assoc_lookup(grown, k) == assoc_lookup(grown.drop_first(), k));
                assert(assoc_lookup(olde, k) == assoc_lookup(olde.drop_first(), k));
                assert(assoc_lookup(grown.drop_first(), k) == assoc_lookup(olde.drop_first(), k));
            }
        }
    }
}

/// Type of strength training session.
#[derive(Debug, PartialEq, Eq)]
pub enum StrengthSessionType {
    Lower,
    Upper,
    Full,
    Other(String),
}

/// Abstraction of a strength session type.
#[verifier::ext_equal]
pub enum StrengthSessionTypeView {
    Lower,
    Upper,
    Full,
    Other(Seq<char>),
}

impl View for StrengthSessionType {
    type V = StrengthSessionTypeView;

    open spec fn view(&self) -> StrengthSessionTypeView {
        match self {
            StrengthSessionType::Lower => StrengthSessionTypeView::Lower,
            StrengthSessionType::Upper => StrengthSessionTypeView::Upper,
            StrengthSessionType::Full => StrengthSessionTypeView::Full,
            StrengthSessionType::Other(s) => StrengthSessionTypeView::Other(s@),
        }
    }
}

/// External strength training signal, produced by another system.
#[derive(Debug)]
pub struct ExternalStrengthSignal {
    pub last_session_at: i64,
    pub session_type: StrengthSessionType,
}

/// Runtime context for the prescription engine.
#[derive(Debug)]
pub struct UserContext {
    pub now: i64,
    pub user_state: UserMicrodoseState,
    pub recent_sessions: Vec<SessionKind>,
    pub external_strength: Option<ExternalStrengthSignal>,
    pub equipment_available: Vec<String>,
}

/// The complete catalog of movements and microdose definitions.
#[derive(Debug)]
pub struct Catalog {
    pub movements: Vec<Movement>,
    pub microdoses: Vec<MicrodoseDefinition>,
}

} // verus!

use vstd::prelude::*;

verus! {

/// Character-preserving copy of a string vector.
pub fn clone_strings(v: &Vec<String>) -> (r: Vec<String>)
    ensures
        r@.map_values(|s: String| s@) == v@.map_values(|s: String| s@),
{
    let mut out: Vec<String> = Vec::new();
    let mut i: usize = 0;
    while i < v.len()
        invariant
            i <= v@.len(),
            out@.len() == i,
            forall|j: int| 0 <= j < i ==> #[trigger] out@[j]@ == v@[j]@,
        decreases v@.len() - i,
    {
        out.push(v[i].clone());
        i = i + 1;
    }
    proof {
        assert(out@.map_values(|s: String| s@) =~= v@.map_values(|s: String| s@));
    }
    out
}

fn clone_opt_string(v: &Option<String>) -> (r: Option<String>)
    ensures
        match (v, &r) {
            (Option::Some(a), Option::Some(b)) => a@ == b@,
            (Option::None, Option::None) => true,
            _ => false,
        },
{
    match v {
        Option::Some(s) => Option::Some(s.clone()),
        Option::None => Option::None,
    }
}

impl Clone for BandSpec {
    /// Copy with the same abstract value.
    fn clone(&self) -> (r: Self)
        ensures
            r@ == self@,
    {
        match self {
            BandSpec::NoBand => BandSpec::NoBand,
            BandSpec::NamedColour(c) => BandSpec::NamedColour(c.clone()),
        }
    }
}

impl Clone for MovementStyle {
    /// Copy with the same abstract value.
    fn clone(&self) -> (r: Self)
        ensures
            r@ == self@,
    {
        match self {
            MovementStyle::Plain => MovementStyle::Plain,
            MovementStyle::Burpee(b) => MovementStyle::Burpee(*b),
            MovementStyle::Band(b) => MovementStyle::Band(b.clone()),
        }
    }
}

impl Clone for MetricSpec {
    /// Copy with the same abstract value.
    fn clone(&self) -> (r: Self)
        ensures
            r@ == self@,
    {
        match self {
            MetricSpec::Reps { key, default, min, max, step, progressable } => MetricSpec::Reps {
                key: key.clone(),
                default: *default,
                min: *min,
                max: *max,
                step: *step,
                progressable: *progressable,
            },
            MetricSpec::Band { key, default, progressable } => MetricSpec::Band {
                key: key.clone(),
                default: default.clone(),
                progressable: *progressable,
            },
        }
    }
}

/// Value-preserving copy of a metric list.
pub fn clone_metrics(v: &Vec<MetricSpec>) -> (r: Vec<MetricSpec>)
    ensures
        r@.map_values(|m: MetricSpec| m@) == v@.map_values(|m: MetricSpec| m@),
{
    let mut out: Vec<MetricSpec> = Vec::new();
    let mut i: usize = 0;
    while i < v.len()
        invariant
            i <= v@.len(),
            out@.len() == i,
            forall|j: int| 0 <= j < i ==> #[trigger] out@[j]@ == v@[j]@,
        decreases v@.len() - i,
    {
        out.push(v[i].clone());
        i = i + 1;
    }
    proof {
        assert(out@.map_values(|m: MetricSpec| m@) =~= v@.map_values(|m: MetricSpec| m@));
    }
    out
}

impl Clone for Movement {
    /// Copy with the same abstract value.
    fn clone(&self) -> (r: Self)
        ensures
            r@ == self@,
    {
        let r = Movement {
            id: self.id.clone(),
            name: self.name.clone(),
            kind: self.kind,
            default_style: self.default_style.clone(),
            tags: clone_strings(&self.tags),
            reference_url: clone_opt_string(&self.reference_url),
        };
        proof {
            assert(r@ =~~= self@);
        }
        r
    }
}

impl Clone for MicrodoseBlock {
    /// Copy with the same abstract value.
    fn clone(&self) -> (r: Self)
        ensures
            r@ == self@,
    {
        let r = MicrodoseBlock {
            movement_id: self.movement_id.clone(),
            movement_style: self.movement_style.clone(),
            duration_hint_seconds: self.duration_hint_seconds,
            metrics: clone_metrics(&self.metrics),
        };
        proof {
            assert(r@ =~~= self@);
        }
        r
    }
}

/// Value-preserving copy of a block list.
pub fn clone_blocks(v: &Vec<MicrodoseBlock>) -> (r: Vec<MicrodoseBlock>)
    ensures
        r@.map_values(|b: MicrodoseBlock| b@) == v@.map_values(|b: MicrodoseBlock| b@),
{
    let mut out: Vec<MicrodoseBlock> = Vec::new();
    let mut i: usize = 0;
    while i < v.len()
        invariant
            i <= v@.len(),
            out@.len() == i,
            forall|j: int| 0 <= j < i ==> #[trigger] out@[j]@ == v@[j]@,
        decreases v@.len() - i,
    {
        out.push(v[i].clone());
        i = i + 1;
    }
    proof {
        assert(out@.map_values(|b: MicrodoseBlock| b@) =~= v@.map_values(|b: MicrodoseBlock| b@));
    }
    out
}

impl Clone for MicrodoseDefinition {
    /// Copy with the same abstract value.
    fn clone(&self) -> (r: Self)
        ensures
            r@ == self@,
    {
        let r = MicrodoseDefinition {
            id: self.id.clone(),
            name: self.name.clone(),
            category: self.category,
            suggested_duration_seconds: self.suggested_duration_seconds,
            gtg_friendly: self.gtg_friendly,
            blocks: clone_blocks(&self.blocks),
            reference_url: clone_opt_string(&self.reference_url),
        };
        proof {
            assert(r@ =~~= self@);
        }
        r
    }
}

impl Clone for MicrodoseSession {
    /// Copy with the same abstract value.
    fn clone(&self) -> (r: Self)
        ensures
            r@ == self@,
    {
        let r = MicrodoseSession {
            id: self.id,
            definition_id: self.definition_id.clone(),
            performed_at: self.performed_at,
            started_at: self.started_at,
            completed_at: self.completed_at,
            actual_duration_seconds: self.actual_duration_seconds,
            metrics_realized: clone_metrics(&self.metrics_realized),
            perceived_rpe: self.perceived_rpe,
            avg_hr: self.avg_hr,
            max_hr: self.max_hr,
        };
        proof {
            assert(r@ =~~= self@);
        }
        r
    }
}

impl Clone for SessionKind {
    /// Copy with the same abstract value.
    fn clone(&self) -> (r: Self)
        ensures
            r@ == self@,
    {
        match self {
            SessionKind::Real(s) => SessionKind::Real(s.clone()),
            SessionKind::ShownButSkipped { definition_id, shown_at } => {
                SessionKind::ShownButSkipped {
                    definition_id: definition_id.clone(),
                    shown_at: *shown_at,
                }
            },
        }
    }
}

impl Clone for ProgressionState {
    /// Copy with the same abstract value.
    fn clone(&self) -> (r: Self)
        ensures
            r@ == self@,
    {
        ProgressionState {
            reps: self.reps,
            style: self.style.clone(),
            level: self.level,
            last_upgraded: self.last_upgraded,
        }
    }
}

impl Clone for UserMicrodoseState {
    /// Copy with the same abstract value.
    fn clone(&self) -> (r: Self)
        ensures
            r@ == self@,
    {
        let mut entries: Vec<(String, ProgressionState)> = Vec::new();
        let mut i: usize = 0;
        while i < self.progressions.len()
            invariant
                i <= self.progressions@.len(),
                entries@.len() == i,
                forall|j: int|
                    0 <= j < i ==> #[trigger] entries@[j].0@ == self.progressions@[j].0@
                        && entries@[j].1@ == self.progressions@[j].1@,
            decreases self.progressions@.len() - i,
        {
            entries.push((self.progressions[i].0.clone(), self.progressions[i].1.clone()));
            i = i + 1;
        }
        let r = UserMicrodoseState {
            progressions: entries,
            last_mobility_def_id: clone_opt_string(&self.last_mobility_def_id),
        };
        proof {
            assert(r@ =~~= self@);
        }
        r
    }
}

impl Clone for StrengthSessionType {
    /// Copy with the same abstract value.
    fn clone(&self) -> (r: Self)
        ensures
            r@ == self@,
    {
        match self {
            StrengthSessionType::Lower => StrengthSessionType::Lower,
            StrengthSessionType::Upper => StrengthSessionType::Upper,
            StrengthSessionType::Full => StrengthSessionType::Full,
            StrengthSessionType::Other(s) => StrengthSessionType::Other(s.clone()),
        }
    }
}

impl Clone for ExternalStrengthSignal {
    /// Copy with the same field values.
    fn clone(&self) -> (r: Self)
        ensures
            r.last_session_at == self.last_session_at,
            r.session_type@ == self.session_type@,
    {
        ExternalStrengthSignal {
            last_session_at: self.last_session_at,
            session_type: self.session_type.clone(),
        }
    }
}

} // verus!
