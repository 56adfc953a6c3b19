//! Prescription engine: selects the next microdose and its intensity from the
//! catalog, the recent history, the progression state and the external
//! strength signal.
//!
//! Category selection is an ordered decision list, first match wins:
//! a fresh lower-body strength session prefers grease-the-groove work; a
//! stale (or absent) latest aerobic session prefers aerobic work; otherwise
//! the category rotates after the most recent history entry.

use crate::error::Error;
use crate::error::ErrorKind;
use crate::strutil::str_contains;
use crate::strutil::str_contains_spec;
use crate::strutil::str_eq;
use crate::strutil::str_le;
use crate::strutil::str_le_spec;
use crate::types::Catalog;
use crate::types::MicrodoseCategory;
use crate::types::MicrodoseDefinition;
use crate::types::MicrodoseDefinitionView;
use crate::types::MetricSpec;
use crate::types::MetricSpecView;
use crate::types::MovementStyle;
use crate::types::SessionKind;
use crate::types::SessionKindView;
use crate::types::StrengthSessionType;
use crate::types::UserContext;
use crate::types::UserStateView;
use vstd::prelude::*;

verus! {

/// A prescribed microdose with computed intensity parameters.
#[derive(Debug)]
pub struct PrescribedMicrodose {
    pub definition: MicrodoseDefinition,
    pub reps: Option<i32>,
    pub style: Option<MovementStyle>,
}

/// Abstract views of the history entries, newest first.
pub open spec fn spec_recent_views(ctx: UserContext) -> Seq<SessionKindView> {
    ctx.recent_sessions@.map_values(|e: SessionKind| e@)
}

/// The strength override applies: a lower-body strength session less than a
/// day old.
pub open spec fn spec_strength_override(ctx: UserContext) -> bool {
    match ctx.external_strength {
        Some(s) => s.session_type@ is Lower && ctx.now - s.last_session_at < 24 * 3600,
        None => false,
    }
}

/// First history entry whose definition identifier contains the marker.
pub open spec fn spec_find_recent(
    entries: Seq<SessionKindView>,
    needle: Seq<char>,
) -> Option<SessionKindView>
    decreases entries.len(),
{
    if entries.len() == 0 {
        None
    } else if str_contains_spec(entries[0].spec_definition_id(), needle) {
        Some(entries[0])
    } else {
        spec_find_recent(entries.drop_first(), needle)
    }
}

/// First history entry that looks like an aerobic session.
pub open spec fn spec_find_recent_vo2(entries: Seq<SessionKindView>) -> Option<SessionKindView>
    decreases entries.len(),
{
    if entries.len() == 0 {
        None
    } else if str_contains_spec(entries[0].spec_definition_id(), "vo2"@) || str_contains_spec(
        entries[0].spec_definition_id(),
        "emom"@,
    ) {
        Some(entries[0])
    } else {
        spec_find_recent_vo2(entries.drop_first())
    }
}

/// Aerobic work is due: no aerobic session in the window, or the latest one
/// is more than four hours old.
pub open spec fn spec_vo2_due(ctx: UserContext) -> bool {
    match spec_find_recent(spec_recent_views(ctx), "vo2"@) {
        None => true,
        Some(e) => ctx.now - e.spec_timestamp() > 4 * 3600,
    }
}

/// Category rotation after the most recent history entry; aerobic work when
/// there is no history or the entry is unrecognized.
pub open spec fn spec_rotation(ctx: UserContext) -> MicrodoseCategory {
    let rs = spec_recent_views(ctx);
    if rs.len() == 0 {
        MicrodoseCategory::Vo2
    } else {
        let id = rs[0].spec_definition_id();
        if str_contains_spec(id, "vo2"@) || str_contains_spec(id, "emom"@) {
            MicrodoseCategory::Gtg
        } else if str_contains_spec(id, "gtg"@) {
            MicrodoseCategory::Mobility
        } else {
            MicrodoseCategory::Vo2
        }
    }
}

/// The ordered decision list for category selection.
pub open spec fn spec_determine_category(ctx: UserContext) -> MicrodoseCategory {
    if spec_strength_override(ctx) {
        MicrodoseCategory::Gtg
    } else if spec_vo2_due(ctx) {
        MicrodoseCategory::Vo2
    } else {
        spec_rotation(ctx)
    }
}

/// The category that a prescription draws from: the explicit target when one
/// is given, otherwise the decision list.
pub open spec fn spec_chosen_category(
    ctx: UserContext,
    target: Option<MicrodoseCategory>,
) -> MicrodoseCategory {
    match target {
        Some(c) => c,
        None => spec_determine_category(ctx),
    }
}

fn find_recent_entry<'a>(entries: &'a Vec<SessionKind>, needle: &str) -> (r: Option<
    &'a SessionKind,
>)
    ensures
        match r {
            Some(e) => spec_find_recent(
                entries@.map_values(|x: SessionKind| x@),
                needle@,
            ) == Some(e@),
            None => spec_find_recent(entries@.map_values(|x: SessionKind| x@), needle@) is None,
        },
{
    let ghost all = entries@.map_values(|x: SessionKind| x@);
    let n = entries.len();
    let mut i: usize = 0;
    proof {
        assert(all.skip(0) =~= all);
    }
    while i < n
        invariant
            n == entries@.len(),
            i <= n,
            all == entries@.map_values(|x: SessionKind| x@),
            spec_find_recent(all, needle@) == spec_find_recent(all.skip(i as int), needle@),
        decreases n - i,
    {
        proof {
            assert(all.skip(i as int)[0] == all[i as int]);
        }
        if str_contains(entries[i].definition_id(), needle) {
            return Some(&entries[i]);
        }
        proof {
            assert(all.skip(i as int).drop_first() =~= all.skip(i + 1));
        }
        i = i + 1;
    }
    proof {
        assert(all.skip(n as int).len() == 0);
    }
    None
}

fn find_recent_vo2_entry<'a>(entries: &'a Vec<SessionKind>) -> (r: Option<&'a SessionKind>)
    ensures
        match r {
            Some(e) => spec_find_recent_vo2(entries@.map_values(|x: SessionKind| x@)) == Some(e@),
            None => spec_find_recent_vo2(entries@.map_values(|x: SessionKind| x@)) is None,
        },
{
    let ghost all = entries@.map_values(|x: SessionKind| x@);
    let n = entries.len();
    let mut i: usize = 0;
    proof {
        assert(all.skip(0) =~= all);
    }
    while i < n
        invariant
            n == entries@.len(),
            i <= n,
            all == entries@.map_values(|x: SessionKind| x@),
            spec_find_recent_vo2(all) == spec_find_recent_vo2(all.skip(i as int)),
        decreases n - i,
    {
        proof {
            assert(all.skip(i as int)[0] == all[i as int]);
        }
        if str_contains(entries[i].definition_id(), "vo2") || str_contains(
            entries[i].definition_id(),
            "emom",
        ) {
            return Some(&entries[i]);
        }
        proof {
            assert(all.skip(i as int).drop_first() =~= all.skip(i + 1));
        }
        i = i + 1;
    }
    proof {
        assert(all.skip(n as int).len() == 0);
    }
    None
}

/// Picks the category to prescribe from, by the ordered decision list.
pub fn determine_category(ctx: &UserContext) -> (r: MicrodoseCategory)
    ensures
        r == spec_determine_category(*ctx),
{
    match &ctx.external_strength {
        Some(s) => {
            let fresh = (ctx.now as i128) - (s.last_session_at as i128) < 24 * 3600;
            let lower = match &s.session_type {
                StrengthSessionType::Lower => true,
                _ => false,
            };
            if fresh && lower {
                return MicrodoseCategory::Gtg;
            }
        },
        None => {},
    }
    match find_recent_entry(&ctx.recent_sessions, "vo2") {
        None => {
            return MicrodoseCategory::Vo2;
        },
        Some(e) => {
            let ts = e.timestamp();
            if (ctx.now as i128) - (ts as i128) > 4 * 3600 {
                return MicrodoseCategory::Vo2;
            }
        },
    }
    if ctx.recent_sessions.len() == 0 {
        return MicrodoseCategory::Vo2;
    }
    proof {
        assert(spec_recent_views(*ctx)[0] == ctx.recent_sessions@[0]@);
    }
    let first = &ctx.recent_sessions[0];
    if str_contains(first.definition_id(), "vo2") || str_contains(first.definition_id(), "emom") {
        MicrodoseCategory::Gtg
    } else if str_contains(first.definition_id(), "gtg") {
        MicrodoseCategory::Mobility
    } else {
        MicrodoseCategory::Vo2
    }
}

/// Abstract views of the catalog's definitions.
pub open spec fn spec_defs_views(catalog: Catalog) -> Seq<MicrodoseDefinitionView> {
    catalog.microdoses@.map_values(|d: MicrodoseDefinition| d@)
}

/// Definitions of one category, in catalog order.
pub open spec fn spec_filter_category(
    defs: Seq<MicrodoseDefinitionView>,
    cat: MicrodoseCategory,
) -> Seq<MicrodoseDefinitionView>
    decreases defs.len(),
{
    if defs.len() == 0 {
        Seq::<MicrodoseDefinitionView>::empty()
    } else if defs[0].category == cat {
        seq![defs[0]] + spec_filter_category(defs.drop_first(), cat)
    } else {
        spec_filter_category(defs.drop_first(), cat)
    }
}

/// Inserts a definition in front of the first element it sorts at or before.
pub open spec fn spec_insert_sorted(
    sorted: Seq<MicrodoseDefinitionView>,
    d: MicrodoseDefinitionView,
) -> Seq<MicrodoseDefinitionView>
    decreases sorted.len(),
{
    if sorted.len() == 0 {
        seq![d]
    } else if str_le_spec(d.id, sorted[0].id) {
        seq![d] + sorted
    } else {
        seq![sorted[0]] + spec_insert_sorted(sorted.drop_first(), d)
    }
}

/// Insertion sort by identifier, processed left to right.
pub open spec fn spec_sort_from(
    acc: Seq<MicrodoseDefinitionView>,
    defs: Seq<MicrodoseDefinitionView>,
) -> Seq<MicrodoseDefinitionView>
    decreases defs.len(),
{
    if defs.len() == 0 {
        acc
    } else {
        spec_sort_from(spec_insert_sorted(acc, defs[0]), defs.drop_first())
    }
}

/// The candidates of a category: its definitions, sorted by identifier for
/// deterministic selection.
pub open spec fn spec_candidates(
    catalog: Catalog,
    cat: MicrodoseCategory,
) -> Seq<MicrodoseDefinitionView> {
    spec_sort_from(
        Seq::<MicrodoseDefinitionView>::empty(),
        spec_filter_category(spec_defs_views(catalog), cat),
    )
}

/// First candidate whose identifier differs from the given one.
pub open spec fn spec_find_first_diff(
    cands: Seq<MicrodoseDefinitionView>,
    id: Seq<char>,
) -> Option<MicrodoseDefinitionView>
    decreases cands.len(),
{
    if cands.len() == 0 {
        None
    } else if cands[0].id != id {
        Some(cands[0])
    } else {
        spec_find_first_diff(cands.drop_first(), id)
    }
}

/// Position of the first candidate with the given identifier.
pub open spec fn spec_find_pos(cands: Seq<MicrodoseDefinitionView>, id: Seq<char>) -> Option<int>
    decreases cands.len(),
{
    if cands.len() == 0 {
        None
    } else if cands[0].id == id {
        Some(0int)
    } else {
        match spec_find_pos(cands.drop_first(), id) {
            Some(i) => Some(i + 1),
            None => None,
        }
    }
}

/// The definition selected within a category: aerobic work round-robins away
/// from the last aerobic definition performed, grease-the-groove work takes
/// the first candidate, and mobility advances a persisted cursor.
pub open spec fn spec_select_definition(
    catalog: Catalog,
    ctx: UserContext,
    cat: MicrodoseCategory,
) -> Option<MicrodoseDefinitionView> {
    let cands = spec_candidates(catalog, cat);
    if cands.len() == 0 {
        None
    } else {
        Some(
            match cat {
                MicrodoseCategory::Vo2 => match spec_find_recent_vo2(spec_recent_views(ctx)) {
                    Some(e) => match spec_find_first_diff(cands, e.spec_definition_id()) {
                        Some(d) => d,
                        None => cands[0],
                    },
                    None => cands[0],
                },
                MicrodoseCategory::Gtg => cands[0],
                MicrodoseCategory::Mobility => match ctx.user_state@.last_mobility_def_id {
                    Some(last) => match spec_find_pos(cands, last) {
                        Some(i) => cands[(i + 1) % (cands.len() as int)],
                        None => cands[0],
                    },
                    None => cands[0],
                },
            },
        )
    }
}

proof fn lemma_insert_sorted_at(
    s: Seq<MicrodoseDefinitionView>,
    d: MicrodoseDefinitionView,
    j: int,
)
    requires
        0 <= j <= s.len(),
        forall|k: int| 0 <= k < j ==> !str_le_spec(d.id, #[trigger] s[k].id),
        j < s.len() ==> str_le_spec(d.id, s[j].id),
    ensures
        spec_insert_sorted(s, d) == s.take(j) + seq![d] + s.skip(j),
    decreases j,
{
    if j == 0 {
        if s.len() == 0 {
            assert(spec_insert_sorted(s, d) =~= s.take(0) + seq![d] + s.skip(0));
        } else {
            assert(spec_insert_sorted(s, d) =~= s.take(0) + seq![d] + s.skip(0));
        }
    } else {
        lemma_insert_sorted_at(s.drop_first(), d, j - 1);
        assert(s.drop_first().take(j - 1) =~= s.take(j).drop_first());
        assert(s.drop_first().skip(j - 1) =~= s.skip(j));
        assert(spec_insert_sorted(s, d) == seq![s[0]] + spec_insert_sorted(s.drop_first(), d));
        assert(spec_insert_sorted(s, d) =~= s.take(j) + seq![d] + s.skip(j));
    }
}

fn insert_sorted(out: &mut Vec<MicrodoseDefinition>, d: MicrodoseDefinition)
    ensures
        final(out)@.map_values(|x: MicrodoseDefinition| x@) == spec_insert_sorted(
            old(out)@.map_values(|x: MicrodoseDefinition| x@),
            d@,
        ),
{
    let ghost all = old(out)@.map_values(|x: MicrodoseDefinition| x@);
    let ghost dv = d@;
    let n = out.len();
    let mut j: usize = 0;
    loop
        invariant
            *out == *old(out),
            n == out@.len(),
            j <= n,
            dv == d@,
            all == out@.map_values(|x: MicrodoseDefinition| x@),
            forall|k: int| 0 <= k < j ==> !str_le_spec(dv.id, #[trigger] all[k].id),
        ensures
            *out == *old(out),
            n == out@.len(),
            j <= n,
            all == out@.map_values(|x: MicrodoseDefinition| x@),
            forall|k: int| 0 <= k < j ==> !str_le_spec(dv.id, #[trigger] all[k].id),
            j < n ==> str_le_spec(dv.id, all[j as int].id),
        decreases n - j,
    {
        if j == n {
            break ;
        }
        proof {
            assert(all[j as int] == out@[j as int]@);
        }
        let le = str_le(d.id.as_str(), out[j].id.as_str());
        proof {
            assert(dv == d@);
            assert(dv.id == d.id@);
            assert(all[j as int].id == out@[j as int].id@);
            assert(le == str_le_spec(dv.id, all[j as int].id));
        }
        if le {
            break ;
        }
        j = j + 1;
    }
    proof {
        lemma_insert_sorted_at(all, dv, j as int);
    }
    out.insert(j, d);
    proof {
        assert(out@.map_values(|x: MicrodoseDefinition| x@) =~~= all.take(j as int) + seq![dv]
            + all.skip(j as int));
    }
}

/// Candidates of one category: the catalog's definitions of that category,
/// sorted by identifier.
fn sorted_candidates(catalog: &Catalog, cat: MicrodoseCategory) -> (r: Vec<MicrodoseDefinition>)
    ensures
        r@.map_values(|x: MicrodoseDefinition| x@) == spec_candidates(*catalog, cat),
{
    let ghost all = spec_defs_views(*catalog);
    let n = catalog.microdoses.len();
    let mut picked: Vec<MicrodoseDefinition> = Vec::new();
    let mut i: usize = 0;
    proof {
        assert(all.skip(0) =~= all);
        assert(picked@.map_values(|x: MicrodoseDefinition| x@)
            =~= Seq::<MicrodoseDefinitionView>::empty());
    }
    while i < n
        invariant
            n == catalog.microdoses@.len(),
            i <= n,
            all == spec_defs_views(*catalog),
            spec_filter_category(all, cat) =~= picked@.map_values(|x: MicrodoseDefinition| x@)
                + spec_filter_category(all.skip(i as int), cat),
        decreases n - i,
    {
        let ghost pre = picked@.map_values(|x: MicrodoseDefinition| x@);
        proof {
            assert(all.skip(i as int)[0] == all[i as int]);
            assert(all[i as int] == catalog.microdoses@[i as int]@);
            assert(all.skip(i as int).drop_first() =~= all.skip(i + 1));
        }
        if catalog.microdoses[i].category == cat {
            picked.push(catalog.microdoses[i].clone());
            proof {
                assert(picked@.map_values(|x: MicrodoseDefinition| x@) =~= pre.push(
                    all[i as int],
                ));
                assert(pre + spec_filter_category(all.skip(i as int), cat) =~= pre.push(
                    all[i as int],
                ) + spec_filter_category(all.skip(i + 1), cat));
            }
        }
        i = i + 1;
    }
    proof {
        assert(spec_filter_category(all.skip(n as int), cat) =~= Seq::<
            MicrodoseDefinitionView,
        >::empty());
        assert(picked@.map_values(|x: MicrodoseDefinition| x@) =~= spec_filter_category(all, cat));
    }
    let ghost filtered = picked@.map_values(|x: MicrodoseDefinition| x@);
    let mut out: Vec<MicrodoseDefinition> = Vec::new();
    let mut k: usize = 0;
    let m = picked.len();
    proof {
        assert(filtered.skip(0) =~= filtered);
        assert(out@.map_values(|x: MicrodoseDefinition| x@) =~= Seq::<
            MicrodoseDefinitionView,
        >::empty());
    }
    while k < m
        invariant
            m == picked@.len(),
            k <= m,
            filtered == picked@.map_values(|x: MicrodoseDefinition| x@),
            spec_sort_from(out@.map_values(|x: MicrodoseDefinition| x@), filtered.skip(k as int))
                == spec_sort_from(Seq::<MicrodoseDefinitionView>::empty(), filtered),
        decreases m - k,
    {
        proof {
            assert(filtered.skip(k as int)[0] == filtered[k as int]);
            assert(filtered[k as int] == picked@[k as int]@);
            assert(filtered.skip(k as int).drop_first() =~= filtered.skip(k + 1));
        }
        insert_sorted(&mut out, picked[k].clone());
        k = k + 1;
    }
    proof {
        assert(filtered.skip(m as int).len() == 0);
    }
    out
}

/// Selects a definition from a category; an error of the prescription kind
/// when the catalog has no definition of that category.
pub fn select_definition_from_category(
    catalog: &Catalog,
    ctx: &UserContext,
    category: MicrodoseCategory,
) -> (r: Result<MicrodoseDefinition, Error>)
    ensures
        match r {
            Ok(d) => spec_select_definition(*catalog, *ctx, category) == Some(d@),
            Err(e) => spec_candidates(*catalog, category).len() == 0 && e@.0
                == ErrorKind::Prescription,
        },
{
    let candidates = sorted_candidates(catalog, category);
    let ghost cands = candidates@.map_values(|x: MicrodoseDefinition| x@);
    if candidates.len() == 0 {
        return Err(Error::Prescription("no microdoses found in the requested category".to_owned()));
    }
    match category {
        MicrodoseCategory::Vo2 => {
            match find_recent_vo2_entry(&ctx.recent_sessions) {
                Some(e) => {
                    let last_id = e.definition_id();
                    let n = candidates.len();
                    let mut i: usize = 0;
                    proof {
                        assert(cands.skip(0) =~= cands);
                    }
                    while i < n
                        invariant
                            n == candidates@.len(),
                            n >= 1,
                            i <= n,
                            cands == candidates@.map_values(|x: MicrodoseDefinition| x@),
                            cands == spec_candidates(*catalog, category),
                            category is Vo2,
                            spec_find_recent_vo2(spec_recent_views(*ctx)) == Some(e@),
                            last_id@ == e@.spec_definition_id(),
                            spec_find_first_diff(cands, last_id@) == spec_find_first_diff(
                                cands.skip(i as int),
                                last_id@,
                            ),
                        decreases n - i,
                    {
                        proof {
                            assert(cands.skip(i as int)[0] == cands[i as int]);
                            assert(cands[i as int] == candidates@[i as int]@);
                        }
                        if !str_eq(candidates[i].id.as_str(), last_id) {
                            proof {
                                assert(spec_find_first_diff(cands, last_id@) == Some(
                                    cands[i as int],
                                ));
                            }
                            return Ok(candidates[i].clone());
                        }
                        proof {
                            assert(cands.skip(i as int).drop_first() =~= cands.skip(i + 1));
                        }
                        i = i + 1;
                    }
                    proof {
                        assert(cands.skip(n as int).len() == 0);
                    }
                    Ok(candidates[0].clone())
                },
                None => Ok(candidates[0].clone()),
            }
        },
        MicrodoseCategory::Gtg => Ok(candidates[0].clone()),
        MicrodoseCategory::Mobility => {
            match &ctx.user_state.last_mobility_def_id {
                Some(last) => {
                    let n = candidates.len();
                    let mut i: usize = 0;
                    proof {
                        assert(cands.skip(0) =~= cands);
                        assert(spec_find_pos(cands, last@) == match spec_find_pos(
                            cands.skip(0),
                            last@,
                        ) {
                            Some(p) => Some(p + 0),
                            None => None::<int>,
                        });
                    }
                    while i < n
                        invariant
                            n == candidates@.len(),
                            n >= 1,
                            i <= n,
                            cands == candidates@.map_values(|x: MicrodoseDefinition| x@),
                            cands == spec_candidates(*catalog, category),
                            category is Mobility,
                            ctx.user_state@.last_mobility_def_id == Some(last@),
                            spec_find_pos(cands, last@) == match spec_find_pos(
                                cands.skip(i as int),
                                last@,
                            ) {
                                Some(p) => Some(p + i),
                                None => None::<int>,
                            },
                        decreases n - i,
                    {
                        proof {
                            assert(cands.skip(i as int)[0] == cands[i as int]);
                            assert(cands[i as int] == candidates@[i as int]@);
                        }
                        if str_eq(candidates[i].id.as_str(), last.as_str()) {
                            let next = (i + 1) % candidates.len();
                            proof {
                                assert(spec_find_pos(cands, last@) == Some(i as int));
                                assert(cands[next as int] == candidates@[next as int]@);
                            }
                            return Ok(candidates[next].clone());
                        }
                        proof {
                            assert(cands.skip(i as int).drop_first() =~= cands.skip(i + 1));
                        }
                        i = i + 1;
                    }
                    proof {
                        assert(cands.skip(n as int).len() == 0);
                        assert(spec_find_pos(cands, last@) is None);
                    }
                    Ok(candidates[0].clone())
                },
                None => Ok(candidates[0].clone()),
            }
        },
    }
}

/// Default reps of the first repetition metric, if any.
pub open spec fn spec_first_reps_default(metrics: Seq<MetricSpecView>) -> Option<i32>
    decreases metrics.len(),
{
    if metrics.len() == 0 {
        None
    } else {
        match metrics[0] {
            MetricSpecView::Reps { default, .. } => Some(default),
            MetricSpecView::Band { .. } => spec_first_reps_default(metrics.drop_first()),
        }
    }
}

/// Intensity for a definition: the recorded progression when one exists,
/// otherwise the declared defaults of the definition's first block.
pub open spec fn spec_compute_intensity(
    def: MicrodoseDefinitionView,
    st: UserStateView,
) -> (Option<i32>, Option<crate::types::MovementStyleView>) {
    match st.spec_progression_for(def.id) {
        Some(p) => (Some(p.reps), Some(p.style)),
        None => (
            if def.blocks.len() > 0 {
                spec_first_reps_default(def.blocks[0].metrics)
            } else {
                None
            },
            if def.blocks.len() > 0 {
                Some(def.blocks[0].movement_style)
            } else {
                None
            },
        ),
    }
}

/// Computes reps and style for a definition from the progression state, or
/// from the definition's declared defaults.
pub fn compute_intensity(definition: &MicrodoseDefinition, ctx: &UserContext) -> (r: (
    Option<i32>,
    Option<MovementStyle>,
))
    ensures
        r.0 == spec_compute_intensity(definition@, ctx.user_state@).0,
        match r.1 {
            Some(s) => spec_compute_intensity(definition@, ctx.user_state@).1 == Some(s@),
            None => spec_compute_intensity(definition@, ctx.user_state@).1 is None,
        },
{
    match ctx.user_state.progression_for(definition.id.as_str()) {
        Some(state) => (Some(state.reps), Some(state.style.clone())),
        None => {
            if definition.blocks.len() == 0 {
                return (None, None);
            }
            proof {
                assert(definition@.blocks[0] == definition.blocks@[0]@);
            }
            let block = &definition.blocks[0];
            let ghost ms = block@.metrics;
            let n = block.metrics.len();
            let mut i: usize = 0;
            let mut reps: Option<i32> = None;
            proof {
                assert(ms.skip(0) =~= ms);
            }
            loop
                invariant_except_break
                    reps is None,
                invariant
                    n == block.metrics@.len(),
                    i <= n,
                    ms == block@.metrics,
                    spec_first_reps_default(ms) == spec_first_reps_default(ms.skip(i as int)),
                ensures
                    reps == spec_first_reps_default(ms),
                decreases n - i,
            {
                if i == n {
                    proof {
                        assert(ms.skip(n as int).len() == 0);
                    }
                    break ;
                }
                proof {
                    assert(ms.skip(i as int)[0] == ms[i as int]);
                    assert(ms[i as int] == block.metrics@[i as int]@);
                }
                match &block.metrics[i] {
                    MetricSpec::Reps { default, .. } => {
                        reps = Some(*default);
                        proof {
                            assert(spec_first_reps_default(ms) == Some(*default));
                        }
                        break ;
                    },
                    MetricSpec::Band { .. } => {},
                }
                proof {
                    assert(ms.skip(i as int).drop_first() =~= ms.skip(i + 1));
                }
                i = i + 1;
            }
            (reps, Some(block.movement_style.clone()))
        },
    }
}

/// Prescribes the next microdose: picks a category by the decision list (or
/// takes the explicit target), selects a definition within it, and computes
/// intensity from the progression state. Fails exactly when the chosen
/// category has no definition in the catalog.
pub fn prescribe_next(
    catalog: &Catalog,
    ctx: &UserContext,
    target_category: Option<MicrodoseCategory>,
) -> (r: Result<PrescribedMicrodose, Error>)
    ensures
        match r {
            Ok(p) => spec_select_definition(
                *catalog,
                *ctx,
                spec_chosen_category(*ctx, target_category),
            ) == Some(p.definition@) && p.reps == spec_compute_intensity(
                p.definition@,
                ctx.user_state@,
            ).0 && (match p.style {
                Some(s) => spec_compute_intensity(p.definition@, ctx.user_state@).1 == Some(s@),
                None => spec_compute_intensity(p.definition@, ctx.user_state@).1 is None,
            }),
            Err(e) => spec_candidates(
                *catalog,
                spec_chosen_category(*ctx, target_category),
            ).len() == 0 && e@.0 == ErrorKind::Prescription,
        },
{
    let category = match target_category {
        Some(cat) => cat,
        None => determine_category(ctx),
    };
    let definition = match select_definition_from_category(catalog, ctx, category) {
        Ok(d) => d,
        Err(e) => {
            return Err(e);
        },
    };
    let (reps, style) = compute_intensity(&definition, ctx);
    Ok(PrescribedMicrodose { definition, reps, style })
}

} // verus!

use vstd::multiset::Multiset;
use vstd::prelude::*;

verus! {

/// The candidate list is ordered by identifier.
pub open spec fn sorted_by_id(ds: Seq<MicrodoseDefinitionView>) -> bool {
    forall|i: int, j: int| 0 <= i < j < ds.len() ==> str_le_spec(ds[i].id, ds[j].id)
}

proof fn lemma_insert_sorted_props(sorted: Seq<MicrodoseDefinitionView>, d: MicrodoseDefinitionView)
    requires
        sorted_by_id(sorted),
    ensures
        sorted_by_id(spec_insert_sorted(sorted, d)),
        spec_insert_sorted(sorted, d).to_multiset() == sorted.to_multiset().insert(d),
        spec_insert_sorted(sorted, d).len() == sorted.len() + 1,
        forall|k: int|
            0 <= k < spec_insert_sorted(sorted, d).len() ==> (#[trigger] spec_insert_sorted(
                sorted,
                d,
            )[k] == d || sorted.contains(spec_insert_sorted(sorted, d)[k])),
    decreases sorted.len(),
{
    broadcast use vstd::seq_lib::group_to_multiset_ensures;

    if sorted.len() == 0 {
        assert(spec_insert_sorted(sorted, d) =~= Seq::<MicrodoseDefinitionView>::empty().push(d));
        assert(Seq::<MicrodoseDefinitionView>::empty().push(d).to_multiset() =~= Seq::<
            MicrodoseDefinitionView,
        >::empty().to_multiset().insert(d));
        assert(spec_insert_sorted(sorted, d)[0] == d);
    } else if str_le_spec(d.id, sorted[0].id) {
        let r = seq![d] + sorted;
        assert(r.to_multiset() == sorted.to_multiset().insert(d)) by {
            vstd::seq_lib::lemma_multiset_commutative(seq![d], sorted);
            assert(seq![d].to_multiset() =~= Multiset::<MicrodoseDefinitionView>::empty().insert(
                d,
            ));
            assert(Multiset::<MicrodoseDefinitionView>::empty().insert(d).add(sorted.to_multiset())
                =~= sorted.to_multiset().insert(d));
        }
        assert forall|k: int| 0 <= k < r.len() implies (#[trigger] r[k] == d || sorted.contains(
            r[k],
        )) by {
            if k >= 1 {
                assert(r[k] == sorted[k - 1]);
            }
        }
        assert(sorted_by_id(r)) by {
            assert(forall|k: int| 0 <= k < sorted.len() ==> r[k + 1] == sorted[k]);
            assert(r[0] == d);
            assert forall|k: int| 1 <= k < r.len() implies str_le_spec(d.id, r[k].id) by {
                assert(r[k] == sorted[k - 1]);
                if k > 1 {
                    assert(str_le_spec(sorted[0].id, sorted[k - 1].id));
                    lemma_str_le_trans(d.id, sorted[0].id, sorted[k - 1].id);
                }
            }
        }
    } else {
        lemma_insert_sorted_props(sorted.drop_first(), d);
        crate::strutil::lemma_str_le_total(d.id, sorted[0].id);
        assert(str_le_spec(sorted[0].id, d.id));
        let rest = spec_insert_sorted(sorted.drop_first(), d);
        let r = seq![sorted[0]] + rest;
        assert(r.to_multiset() == sorted.to_multiset().insert(d)) by {
            vstd::seq_lib::lemma_multiset_commutative(seq![sorted[0]], rest);
            vstd::seq_lib::lemma_multiset_commutative(seq![sorted[0]], sorted.drop_first());
            assert(seq![sorted[0]] + sorted.drop_first() =~= sorted);
            assert(seq![sorted[0]].to_multiset().add(
                sorted.drop_first().to_multiset().insert(d),
            ) =~= (seq![sorted[0]].to_multiset().add(sorted.drop_first().to_multiset())).insert(
                d,
            ));
        }
        assert forall|k: int| 0 <= k < r.len() implies (#[trigger] r[k] == d || sorted.contains(
            r[k],
        )) by {
            if k == 0 {
                assert(sorted.contains(r[0])) by {
                    assert(sorted[0] == r[0]);
                }
            } else {
                assert(r[k] == rest[k - 1]);
                if rest[k - 1] == d {
                } else {
                    assert(sorted.drop_first().contains(rest[k - 1]));
                    let w = choose|w: int|
                        0 <= w < sorted.drop_first().len() && sorted.drop_first()[w] == rest[k - 1];
                    assert(sorted[w + 1] == rest[k - 1]);
                }
            }
        }
        assert(sorted_by_id(r)) by {
            assert(sorted_by_id(sorted.drop_first())) by {
                assert(forall|k: int|
                    0 <= k < sorted.drop_first().len() ==> #[trigger] sorted.drop_first()[k]
                        == sorted[k + 1]);
            }
            assert(forall|k: int| 0 <= k < rest.len() ==> r[k + 1] == rest[k]);
            assert(r[0] == sorted[0]);
            assert forall|k: int| 0 <= k < rest.len() implies str_le_spec(
                sorted[0].id,
                (#[trigger] rest[k]).id,
            ) by {
                if rest[k] == d {
                } else {
                    assert(sorted.drop_first().contains(rest[k]) || rest[k] == d);
                    let w = choose|w: int|
                        0 <= w < sorted.drop_first().len() && sorted.drop_first()[w] == rest[k];
                    assert(sorted[w + 1] == rest[k]);
                    assert(str_le_spec(sorted[0].id, sorted[w + 1].id));
                }
            }
        }
    }
}

/// The lexicographic order is transitive.
proof fn lemma_str_le_trans(a: Seq<char>, b: Seq<char>, c: Seq<char>)
    requires
        str_le_spec(a, b),
        str_le_spec(b, c),
    ensures
        str_le_spec(a, c),
    decreases a.len(),
{
    if a.len() != 0 && b.len() != 0 && c.len() != 0 {
        if (a[0] as u32) == (b[0] as u32) && (b[0] as u32) == (c[0] as u32) {
            lemma_str_le_trans(a.drop_first(), b.drop_first(), c.drop_first());
        }
    }
}

/// Law of candidate selection: the candidates of a category are exactly the
/// catalog's definitions of that category, ordered by identifier, so the
/// selection within a category is deterministic.
pub proof fn lemma_candidates_sorted(catalog: Catalog, cat: MicrodoseCategory)
    ensures
        sorted_by_id(spec_candidates(catalog, cat)),
        spec_candidates(catalog, cat).to_multiset() == spec_filter_category(
            spec_defs_views(catalog),
            cat,
        ).to_multiset(),
{
    lemma_sort_from_props(
        Seq::<MicrodoseDefinitionView>::empty(),
        spec_filter_category(spec_defs_views(catalog), cat),
    );
    broadcast use vstd::seq_lib::group_to_multiset_ensures;

    assert(Seq::<MicrodoseDefinitionView>::empty().to_multiset() =~= Multiset::<
        MicrodoseDefinitionView,
    >::empty());
    assert(Multiset::<MicrodoseDefinitionView>::empty().add(
        spec_filter_category(spec_defs_views(catalog), cat).to_multiset(),
    ) =~= spec_filter_category(spec_defs_views(catalog), cat).to_multiset());
}

proof fn lemma_sort_from_props(acc: Seq<MicrodoseDefinitionView>, ds: Seq<MicrodoseDefinitionView>)
    requires
        sorted_by_id(acc),
    ensures
        sorted_by_id(spec_sort_from(acc, ds)),
        spec_sort_from(acc, ds).to_multiset() == acc.to_multiset().add(ds.to_multiset()),
    decreases ds.len(),
{
    broadcast use vstd::seq_lib::group_to_multiset_ensures;

    if ds.len() == 0 {
        assert(ds.to_multiset() =~= Multiset::<MicrodoseDefinitionView>::empty());
        assert(acc.to_multiset().add(ds.to_multiset()) =~= acc.to_multiset());
    } else {
        lemma_insert_sorted_props(acc, ds[0]);
        lemma_sort_from_props(spec_insert_sorted(acc, ds[0]), ds.drop_first());
        assert(ds.drop_first().push(ds[0]).to_multiset() =~= ds.to_multiset()) by {
            vstd::seq_lib::lemma_multiset_commutative(seq![ds[0]], ds.drop_first());
            vstd::seq_lib::lemma_multiset_commutative(ds.drop_first(), seq![ds[0]]);
            assert(seq![ds[0]] + ds.drop_first() =~= ds);
            assert(ds.drop_first() + seq![ds[0]] =~= ds.drop_first().push(ds[0]));
        }
        assert(acc.to_multiset().insert(ds[0]).add(ds.drop_first().to_multiset())
            =~= acc.to_multiset().add(ds.to_multiset()));
    }
}

} // verus!
