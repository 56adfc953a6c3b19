//! Default catalog of movements and microdose definitions, and catalog
//! validation.

use crate::strutil::str_eq;
use crate::types::BandSpec;
use crate::types::BurpeeStyle;
use crate::types::Catalog;
use crate::types::MetricSpec;
use crate::types::MetricSpecView;
use crate::types::MicrodoseBlock;
use crate::types::MicrodoseBlockView;
use crate::types::MicrodoseCategory;
use crate::types::MicrodoseDefinition;
use crate::types::MicrodoseDefinitionView;
use crate::types::Movement;
use crate::types::MovementKind;
use crate::types::MovementStyle;
use crate::types::MovementView;
use vstd::prelude::*;

verus! {

/// A metric specification is internally consistent: repetition defaults lie
/// within their range, band defaults are non-empty.
pub open spec fn spec_metric_valid(m: MetricSpecView) -> bool {
    match m {
        MetricSpecView::Reps { default, min, max, .. } => min <= default && default <= max && min
            <= max,
        MetricSpecView::Band { default, .. } => default.len() > 0,
    }
}

/// Some movement in the list carries the identifier.
pub open spec fn spec_has_movement(movements: Seq<MovementView>, id: Seq<char>) -> bool {
    exists|i: int| 0 <= i < movements.len() && #[trigger] movements[i].id == id
}

/// A block references an existing movement and carries consistent metrics.
pub open spec fn spec_block_valid(movements: Seq<MovementView>, b: MicrodoseBlockView) -> bool {
    &&& spec_has_movement(movements, b.movement_id)
    &&& forall|i: int| 0 <= i < b.metrics.len() ==> spec_metric_valid(#[trigger] b.metrics[i])
}

/// A movement has a non-empty identifier and name.
pub open spec fn spec_movement_valid(m: MovementView) -> bool {
    m.id.len() > 0 && m.name.len() > 0
}

/// A definition has a non-empty identifier and name, at least one block, and
/// every block is consistent against the movement list.
pub open spec fn spec_def_valid(movements: Seq<MovementView>, d: MicrodoseDefinitionView) -> bool {
    &&& d.id.len() > 0
    &&& d.name.len() > 0
    &&& d.blocks.len() > 0
    &&& forall|i: int| 0 <= i < d.blocks.len() ==> spec_block_valid(movements, #[trigger] d.blocks[i])
}

/// Some definition in the list belongs to the category.
pub open spec fn spec_has_category(
    defs: Seq<MicrodoseDefinitionView>,
    cat: MicrodoseCategory,
) -> bool {
    exists|i: int| 0 <= i < defs.len() && #[trigger] defs[i].category == cat
}

/// Identifiers are pairwise distinct.
pub open spec fn spec_unique_movement_ids(movements: Seq<MovementView>) -> bool {
    forall|i: int, j: int|
        0 <= i < j < movements.len() ==> #[trigger] movements[i].id != #[trigger] movements[j].id
}

/// Identifiers are pairwise distinct.
pub open spec fn spec_unique_def_ids(defs: Seq<MicrodoseDefinitionView>) -> bool {
    forall|i: int, j: int|
        0 <= i < j < defs.len() ==> #[trigger] defs[i].id != #[trigger] defs[j].id
}

/// Abstract views of a catalog's movements.
pub open spec fn spec_movements_views(c: Catalog) -> Seq<MovementView> {
    c.movements@.map_values(|m: Movement| m@)
}

/// Abstract views of a catalog's definitions.
pub open spec fn spec_microdoses_views(c: Catalog) -> Seq<MicrodoseDefinitionView> {
    c.microdoses@.map_values(|d: MicrodoseDefinition| d@)
}

/// The whole catalog is consistent: valid movements and definitions with
/// distinct identifiers, every referenced movement present, and at least one
/// definition in every category.
pub open spec fn spec_catalog_valid(c: Catalog) -> bool {
    let ms = spec_movements_views(c);
    let ds = spec_microdoses_views(c);
    &&& forall|i: int| 0 <= i < ms.len() ==> spec_movement_valid(#[trigger] ms[i])
    &&& spec_unique_movement_ids(ms)
    &&& forall|i: int| 0 <= i < ds.len() ==> spec_def_valid(ms, #[trigger] ds[i])
    &&& spec_unique_def_ids(ds)
    &&& spec_has_category(ds, MicrodoseCategory::Vo2)
    &&& spec_has_category(ds, MicrodoseCategory::Gtg)
    &&& spec_has_category(ds, MicrodoseCategory::Mobility)
}

fn metric_valid(m: &MetricSpec) -> (r: bool)
    ensures
        r == spec_metric_valid(m@),
{
    match m {
        MetricSpec::Reps { default, min, max, .. } => *min <= *default && *default <= *max && *min
            <= *max,
        MetricSpec::Band { default, .. } => default.unicode_len() > 0,
    }
}

fn has_movement(movements: &Vec<Movement>, id: &str) -> (r: bool)
    ensures
        r == spec_has_movement(movements@.map_values(|m: Movement| m@), id@),
{
    let ghost ms = movements@.map_values(|m: Movement| m@);
    let n = movements.len();
    let mut i: usize = 0;
    while i < n
        invariant
            n == movements@.len(),
            i <= n,
            ms == movements@.map_values(|m: Movement| m@),
            forall|k: int| 0 <= k < i ==> #[trigger] ms[k].id != id@,
        decreases n - i,
    {
        proof {
            assert(ms[i as int] == movements@[i as int]@);
        }
        if str_eq(movements[i].id.as_str(), id) {
            proof {
                assert(ms[i as int].id == id@);
            }
            return true;
        }
        i = i + 1;
    }
    false
}

fn block_valid(movements: &Vec<Movement>, b: &MicrodoseBlock) -> (r: bool)
    ensures
        r == spec_block_valid(movements@.map_values(|m: Movement| m@), b@),
{
    if !has_movement(movements, b.movement_id.as_str()) {
        return false;
    }
    let ghost mets = b@.metrics;
    let n = b.metrics.len();
    let mut i: usize = 0;
    while i < n
        invariant
            n == b.metrics@.len(),
            i <= n,
            mets == b@.metrics,
            spec_has_movement(movements@.map_values(|m: Movement| m@), b@.movement_id),
            forall|k: int| 0 <= k < i ==> spec_metric_valid(#[trigger] mets[k]),
        decreases n - i,
    {
        proof {
            assert(mets[i as int] == b.metrics@[i as int]@);
        }
        if !metric_valid(&b.metrics[i]) {
            return false;
        }
        i = i + 1;
    }
    true
}

fn movement_valid(m: &Movement) -> (r: bool)
    ensures
        r == spec_movement_valid(m@),
{
    m.id.unicode_len() > 0 && m.name.unicode_len() > 0
}

fn def_valid(movements: &Vec<Movement>, d: &MicrodoseDefinition) -> (r: bool)
    ensures
        r == spec_def_valid(movements@.map_values(|m: Movement| m@), d@),
{
    if d.id.unicode_len() == 0 || d.name.unicode_len() == 0 || d.blocks.len() == 0 {
        return false;
    }
    let ghost bs = d@.blocks;
    let n = d.blocks.len();
    let mut i: usize = 0;
    while i < n
        invariant
            n == d.blocks@.len(),
            i <= n,
            bs == d@.blocks,
            forall|k: int|
                0 <= k < i ==> spec_block_valid(
                    movements@.map_values(|m: Movement| m@),
                    #[trigger] bs[k],
                ),
        decreases n - i,
    {
        proof {
            assert(bs[i as int] == d.blocks@[i as int]@);
        }
        if !block_valid(movements, &d.blocks[i]) {
            return false;
        }
        i = i + 1;
    }
    true
}

fn has_category(defs: &Vec<MicrodoseDefinition>, cat: MicrodoseCategory) -> (r: bool)
    ensures
        r == spec_has_category(defs@.map_values(|d: MicrodoseDefinition| d@), cat),
{
    let ghost ds = defs@.map_values(|d: MicrodoseDefinition| d@);
    let n = defs.len();
    let mut i: usize = 0;
    while i < n
        invariant
            n == defs@.len(),
            i <= n,
            ds == defs@.map_values(|d: MicrodoseDefinition| d@),
            forall|k: int| 0 <= k < i ==> #[trigger] ds[k].category != cat,
        decreases n - i,
    {
        proof {
            assert(ds[i as int] == defs@[i as int]@);
        }
        if defs[i].category == cat {
            return true;
        }
        i = i + 1;
    }
    false
}

fn movement_id_seen_before(movements: &Vec<Movement>, i: usize) -> (r: bool)
    requires
        i < movements@.len(),
    ensures
        r == exists|k: int| 0 <= k < i && (#[trigger] movements@[k])@.id == movements@[i as int]@.id,
{
    let mut j: usize = 0;
    while j < i
        invariant
            i < movements@.len(),
            j <= i,
            forall|k: int| 0 <= k < j ==> (#[trigger] movements@[k])@.id != movements@[i as int]@.id,
        decreases i - j,
    {
        if str_eq(movements[j].id.as_str(), movements[i].id.as_str()) {
            proof {
                assert((movements@[j as int])@.id == movements@[i as int]@.id);
            }
            return true;
        }
        j = j + 1;
    }
    false
}

fn def_id_seen_before(defs: &Vec<MicrodoseDefinition>, i: usize) -> (r: bool)
    requires
        i < defs@.len(),
    ensures
        r == exists|k: int| 0 <= k < i && (#[trigger] defs@[k])@.id == defs@[i as int]@.id,
{
    let mut j: usize = 0;
    while j < i
        invariant
            i < defs@.len(),
            j <= i,
            forall|k: int| 0 <= k < j ==> (#[trigger] defs@[k])@.id != defs@[i as int]@.id,
        decreases i - j,
    {
        if str_eq(defs[j].id.as_str(), defs[i].id.as_str()) {
            proof {
                assert((defs@[j as int])@.id == defs@[i as int]@.id);
            }
            return true;
        }
        j = j + 1;
    }
    false
}

impl Catalog {
    /// Validates the catalog for consistency and completeness; the result is
    /// empty exactly when the catalog is consistent.
    pub fn validate(&self) -> (errors: Vec<String>)
        ensures
            errors@.len() == 0 <==> spec_catalog_valid(*self),
    {
        let ghost ms = spec_movements_views(*self);
        let ghost ds = spec_microdoses_views(*self);
        let mut errors: Vec<String> = Vec::new();
        let nm = self.movements.len();
        let mut i: usize = 0;
        while i < nm
            invariant
                nm == self.movements@.len(),
                i <= nm,
                ms == spec_movements_views(*self),
                errors@.len() == 0 <==> ((forall|k: int|
                    0 <= k < i ==> spec_movement_valid(#[trigger] ms[k])) && (forall|
                    k: int,
                    j: int,
                |
                    0 <= k < j < i ==> #[trigger] ms[k].id != #[trigger] ms[j].id)),
            decreases nm - i,
        {
            proof {
                assert(ms[i as int] == self.movements@[i as int]@);
            }
            let ok = movement_valid(&self.movements[i]);
            let dup = movement_id_seen_before(&self.movements, i);
            proof {
                assert(ok == spec_movement_valid(ms[i as int]));
                assert(dup == (exists|k: int|
                    0 <= k < i && #[trigger] ms[k].id == ms[i as int].id)) by {
                    if dup {
                        let k = choose|k: int|
                            0 <= k < i && (#[trigger] self.movements@[k])@.id
                                == self.movements@[i as int]@.id;
                        assert(ms[k] == self.movements@[k]@);
                        assert(ms[k].id == ms[i as int].id);
                    } else {
                        assert forall|k: int| 0 <= k < i implies #[trigger] ms[k].id
                            != ms[i as int].id by {
                            assert(ms[k] == self.movements@[k]@);
                        }
                    }
                }
            }
            if !ok {
                let mut msg = "movement '".to_owned();
                msg.append(self.movements[i].id.as_str());
                msg.append("' has an empty identifier or name");
                errors.push(msg);
            }
            if dup {
                let mut msg = "duplicate movement identifier '".to_owned();
                msg.append(self.movements[i].id.as_str());
                msg.append("'");
                errors.push(msg);
            }
            proof {
                if ok && !dup && errors@.len() == 0 {
                    assert forall|k: int, j: int| 0 <= k < j < i + 1 implies #[trigger] ms[k].id
                        != #[trigger] ms[j].id by {
                        if j == i {
                            assert(!(ms[k].id == ms[i as int].id));
                        }
                    }
                }
            }
            i = i + 1;
        }
        let nd = self.microdoses.len();
        let mut d: usize = 0;
        while d < nd
            invariant
                nd == self.microdoses@.len(),
                ms == spec_movements_views(*self),
                ds == spec_microdoses_views(*self),
                d <= nd,
                errors@.len() == 0 <==> ((forall|k: int|
                    0 <= k < ms.len() ==> spec_movement_valid(#[trigger] ms[k]))
                    && spec_unique_movement_ids(ms) && (forall|k: int|
                    0 <= k < d ==> spec_def_valid(ms, #[trigger] ds[k])) && (forall|
                    k: int,
                    j: int,
                |
                    0 <= k < j < d ==> #[trigger] ds[k].id != #[trigger] ds[j].id)),
            decreases nd - d,
        {
            proof {
                assert(ds[d as int] == self.microdoses@[d as int]@);
            }
            let ok = def_valid(&self.movements, &self.microdoses[d]);
            let dup = def_id_seen_before(&self.microdoses, d);
            proof {
                assert(ok == spec_def_valid(ms, ds[d as int]));
                assert(dup == (exists|k: int|
                    0 <= k < d && #[trigger] ds[k].id == ds[d as int].id)) by {
                    if dup {
                        let k = choose|k: int|
                            0 <= k < d && (#[trigger] self.microdoses@[k])@.id
                                == self.microdoses@[d as int]@.id;
                        assert(ds[k] == self.microdoses@[k]@);
                        assert(ds[k].id == ds[d as int].id);
                    } else {
                        assert forall|k: int| 0 <= k < d implies #[trigger] ds[k].id
                            != ds[d as int].id by {
                            assert(ds[k] == self.microdoses@[k]@);
                        }
                    }
                }
            }
            if !ok {
                let mut msg = "microdose '".to_owned();
                msg.append(self.microdoses[d].id.as_str());
                msg.append("' is inconsistent");
                errors.push(msg);
            }
            if dup {
                let mut msg = "duplicate microdose identifier '".to_owned();
                msg.append(self.microdoses[d].id.as_str());
                msg.append("'");
                errors.push(msg);
            }
            proof {
                if ok && !dup && errors@.len() == 0 {
                    assert forall|k: int, j: int| 0 <= k < j < d + 1 implies #[trigger] ds[k].id
                        != #[trigger] ds[j].id by {
                        if j == d {
                            assert(!(ds[k].id == ds[d as int].id));
                        }
                    }
                }
            }
            d = d + 1;
        }
        if !has_category(&self.microdoses, MicrodoseCategory::Vo2) {
            errors.push("catalog has no aerobic microdoses".to_owned());
        }
        if !has_category(&self.microdoses, MicrodoseCategory::Gtg) {
            errors.push("catalog has no grease-the-groove microdoses".to_owned());
        }
        if !has_category(&self.microdoses, MicrodoseCategory::Mobility) {
            errors.push("catalog has no mobility microdoses".to_owned());
        }
        errors
    }
}

} // verus!

use vstd::prelude::*;

verus! {

/// Shape of the built-in catalog: five movements and five definitions, with
/// the identifiers, categories and intensity defaults that the selection and
/// progression rules rely on.
pub open spec fn spec_default_catalog(c: Catalog) -> bool {
    let ms = spec_movements_views(c);
    let ds = spec_microdoses_views(c);
    &&& ms.len() == 5
    &&& ds.len() == 5
    &&& ms[0].id == "kb_swing_2h"@
    &&& ms[0].kind == MovementKind::KettlebellSwing
    &&& ms[0].name == "Kettlebell Swing (2-hand)"@
    &&& ms[1].id == "burpee"@
    &&& ms[1].kind == MovementKind::Burpee
    &&& ms[1].name == "Burpee"@
    &&& ms[2].id == "pullup"@
    &&& ms[2].kind == MovementKind::Pullup
    &&& ms[2].name == "Pull-up"@
    &&& ms[3].id == "hip_cars"@
    &&& ms[3].kind == MovementKind::MobilityDrill
    &&& ms[3].name == "Hip Controlled Articular Rotations (CARs)"@
    &&& ms[4].id == "shoulder_cars"@
    &&& ms[4].kind == MovementKind::MobilityDrill
    &&& ms[4].name == "Shoulder Controlled Articular Rotations (CARs)"@
    &&& ds[0].id == "emom_kb_swing_5m"@
    &&& ds[0].name == "5-Min EMOM: KB Swings (2-hand)"@
    &&& ds[0].category == MicrodoseCategory::Vo2
    &&& ds[0].suggested_duration_seconds == 300
    &&& !ds[0].gtg_friendly
    &&& ds[0].blocks.len() == 1
    &&& ds[0].blocks[0].movement_id == "kb_swing_2h"@
    &&& ds[0].blocks[0].metrics == seq![
        MetricSpecView::Reps { key: "reps"@, default: 5, min: 3, max: 15, step: 1, progressable: true },
    ]
    &&& ds[1].id == "emom_burpee_5m"@
    &&& ds[1].name == "5-Min EMOM: Burpees"@
    &&& ds[1].category == MicrodoseCategory::Vo2
    &&& ds[1].suggested_duration_seconds == 300
    &&& !ds[1].gtg_friendly
    &&& ds[1].blocks.len() == 1
    &&& ds[1].blocks[0].movement_id == "burpee"@
    &&& ds[1].blocks[0].movement_style == crate::types::MovementStyleView::Burpee(
        BurpeeStyle::FourCount,
    )
    &&& ds[1].blocks[0].metrics == seq![
        MetricSpecView::Reps { key: "reps"@, default: 3, min: 2, max: 10, step: 1, progressable: true },
    ]
    &&& ds[2].id == "gtg_pullup_band"@
    &&& ds[2].name == "GTG: Banded Pull-ups"@
    &&& ds[2].category == MicrodoseCategory::Gtg
    &&& ds[2].suggested_duration_seconds == 30
    &&& ds[2].gtg_friendly
    &&& ds[2].blocks.len() == 1
    &&& ds[2].blocks[0].movement_id == "pullup"@
    &&& ds[2].blocks[0].metrics == seq![
        MetricSpecView::Reps { key: "reps"@, default: 3, min: 1, max: 8, step: 1, progressable: true },
        MetricSpecView::Band { key: "band"@, default: "red"@, progressable: false },
    ]
    &&& ds[3].id == "mobility_hip_cars"@
    &&& ds[3].name == "Hip CARs (3 reps each side)"@
    &&& ds[3].category == MicrodoseCategory::Mobility
    &&& ds[3].suggested_duration_seconds == 120
    &&& ds[3].gtg_friendly
    &&& ds[3].blocks.len() == 1
    &&& ds[3].blocks[0].movement_id == "hip_cars"@
    &&& ds[3].blocks[0].metrics == seq![
        MetricSpecView::Reps {
            key: "reps_per_side"@,
            default: 3,
            min: 2,
            max: 5,
            step: 1,
            progressable: false,
        },
    ]
    &&& ds[4].id == "mobility_shoulder_cars"@
    &&& ds[4].name == "Shoulder CARs (3 reps each side)"@
    &&& ds[4].category == MicrodoseCategory::Mobility
    &&& ds[4].suggested_duration_seconds == 120
    &&& ds[4].gtg_friendly
    &&& ds[4].blocks.len() == 1
    &&& ds[4].blocks[0].movement_id == "shoulder_cars"@
    &&& ds[4].blocks[0].metrics == seq![
        MetricSpecView::Reps {
            key: "reps_per_side"@,
            default: 3,
            min: 2,
            max: 5,
            step: 1,
            progressable: false,
        },
    ]
}

/// Builds the built-in catalog of movements and microdose definitions.
/// The result passes validation: `validate` returns no errors on it.
pub fn build_default_catalog() -> (r: Catalog)
    ensures
        spec_default_catalog(r),
        spec_catalog_valid(r),
{
    let mut movements: Vec<Movement> = Vec::new();

    let mut tags: Vec<String> = Vec::new();
    tags.push("vo2".to_owned());
    tags.push("hinge".to_owned());
    tags.push("posterior_chain".to_owned());
    movements.push(
        Movement {
            id: "kb_swing_2h".to_owned(),
            name: "Kettlebell Swing (2-hand)".to_owned(),
            kind: MovementKind::KettlebellSwing,
            default_style: MovementStyle::Plain,
            tags,
            reference_url: Some("https://www.youtube.com/watch?v=YSxHifyI6s8".to_owned()),
        },
    );

    let mut tags: Vec<String> = Vec::new();
    tags.push("vo2".to_owned());
    tags.push("full_body".to_owned());
    tags.push("bodyweight".to_owned());
    movements.push(
        Movement {
            id: "burpee".to_owned(),
            name: "Burpee".to_owned(),
            kind: MovementKind::Burpee,
            default_style: MovementStyle::Burpee(BurpeeStyle::FourCount),
            tags,
            reference_url: Some("https://www.youtube.com/watch?v=TU8QYVW0gDU".to_owned()),
        },
    );

    let mut tags: Vec<String> = Vec::new();
    tags.push("gtg".to_owned());
    tags.push("gtg_ok".to_owned());
    tags.push("upper_body".to_owned());
    tags.push("pull".to_owned());
    movements.push(
        Movement {
            id: "pullup".to_owned(),
            name: "Pull-up".to_owned(),
            kind: MovementKind::Pullup,
            default_style: MovementStyle::Band(BandSpec::NoBand),
            tags,
            reference_url: Some("https://www.youtube.com/watch?v=eGo4IYlbE5g".to_owned()),
        },
    );

    let mut tags: Vec<String> = Vec::new();
    tags.push("mobility".to_owned());
    tags.push("hip".to_owned());
    tags.push("gtg_ok".to_owned());
    movements.push(
        Movement {
            id: "hip_cars".to_owned(),
            name: "Hip Controlled Articular Rotations (CARs)".to_owned(),
            kind: MovementKind::MobilityDrill,
            default_style: MovementStyle::Plain,
            tags,
            reference_url: Some("https://www.youtube.com/watch?v=mJRXBZGRzKg".to_owned()),
        },
    );

    let mut tags: Vec<String> = Vec::new();
    tags.push("mobility".to_owned());
    tags.push("shoulder".to_owned());
    tags.push("gtg_ok".to_owned());
    movements.push(
        Movement {
            id: "shoulder_cars".to_owned(),
            name: "Shoulder Controlled Articular Rotations (CARs)".to_owned(),
            kind: MovementKind::MobilityDrill,
            default_style: MovementStyle::Plain,
            tags,
            reference_url: Some("https://www.youtube.com/watch?v=f9y1lOJ0v4A".to_owned()),
        },
    );

    let mut microdoses: Vec<MicrodoseDefinition> = Vec::new();

    let mut metrics: Vec<MetricSpec> = Vec::new();
    metrics.push(
        MetricSpec::Reps {
            key: "reps".to_owned(),
            default: 5,
            min: 3,
            max: 15,
            step: 1,
            progressable: true,
        },
    );
    let mut blocks: Vec<MicrodoseBlock> = Vec::new();
    blocks.push(
        MicrodoseBlock {
            movement_id: "kb_swing_2h".to_owned(),
            movement_style: MovementStyle::Plain,
            duration_hint_seconds: 60,
            metrics,
        },
    );
    microdoses.push(
        MicrodoseDefinition {
            id: "emom_kb_swing_5m".to_owned(),
            name: "5-Min EMOM: KB Swings (2-hand)".to_owned(),
            category: MicrodoseCategory::Vo2,
            suggested_duration_seconds: 300,
            gtg_friendly: false,
            blocks,
            reference_url: None,
        },
    );

    let mut metrics: Vec<MetricSpec> = Vec::new();
    metrics.push(
        MetricSpec::Reps {
            key: "reps".to_owned(),
            default: 3,
            min: 2,
            max: 10,
            step: 1,
            progressable: true,
        },
    );
    let mut blocks: Vec<MicrodoseBlock> = Vec::new();
    blocks.push(
        MicrodoseBlock {
            movement_id: "burpee".to_owned(),
            movement_style: MovementStyle::Burpee(BurpeeStyle::FourCount),
            duration_hint_seconds: 60,
            metrics,
        },
    );
    microdoses.push(
        MicrodoseDefinition {
            id: "emom_burpee_5m".to_owned(),
            name: "5-Min EMOM: Burpees".to_owned(),
            category: MicrodoseCategory::Vo2,
            suggested_duration_seconds: 300,
            gtg_friendly: false,
            blocks,
            reference_url: None,
        },
    );

    let mut metrics: Vec<MetricSpec> = Vec::new();
    metrics.push(
        MetricSpec::Reps {
            key: "reps".to_owned(),
            default: 3,
            min: 1,
            max: 8,
            step: 1,
            progressable: true,
        },
    );
    metrics.push(
        MetricSpec::Band { key: "band".to_owned(), default: "red".to_owned(), progressable: false },
    );
    let mut blocks: Vec<MicrodoseBlock> = Vec::new();
    blocks.push(
        MicrodoseBlock {
            movement_id: "pullup".to_owned(),
            movement_style: MovementStyle::Band(BandSpec::NamedColour("red".to_owned())),
            duration_hint_seconds: 30,
            metrics,
        },
    );
    microdoses.push(
        MicrodoseDefinition {
            id: "gtg_pullup_band".to_owned(),
            name: "GTG: Banded Pull-ups".to_owned(),
            category: MicrodoseCategory::Gtg,
            suggested_duration_seconds: 30,
            gtg_friendly: true,
            blocks,
            reference_url: None,
        },
    );

    let mut metrics: Vec<MetricSpec> = Vec::new();
    metrics.push(
        MetricSpec::Reps {
            key: "reps_per_side".to_owned(),
            default: 3,
            min: 2,
            max: 5,
            step: 1,
            progressable: false,
        },
    );
    let mut blocks: Vec<MicrodoseBlock> = Vec::new();
    blocks.push(
        MicrodoseBlock {
            movement_id: "hip_cars".to_owned(),
            movement_style: MovementStyle::Plain,
            duration_hint_seconds: 120,
            metrics,
        },
    );
    microdoses.push(
        MicrodoseDefinition {
            id: "mobility_hip_cars".to_owned(),
            name: "Hip CARs (3 reps each side)".to_owned(),
            category: MicrodoseCategory::Mobility,
            suggested_duration_seconds: 120,
            gtg_friendly: true,
            blocks,
            reference_url: None,
        },
    );

    let mut metrics: Vec<MetricSpec> = Vec::new();
    metrics.push(
        MetricSpec::Reps {
            key: "reps_per_side".to_owned(),
            default: 3,
            min: 2,
            max: 5,
            step: 1,
            progressable: false,
        },
    );
    let mut blocks: Vec<MicrodoseBlock> = Vec::new();
    blocks.push(
        MicrodoseBlock {
            movement_id: "shoulder_cars".to_owned(),
            movement_style: MovementStyle::Plain,
            duration_hint_seconds: 120,
            metrics,
        },
    );
    microdoses.push(
        MicrodoseDefinition {
            id: "mobility_shoulder_cars".to_owned(),
            name: "Shoulder CARs (3 reps each side)".to_owned(),
            category: MicrodoseCategory::Mobility,
            suggested_duration_seconds: 120,
            gtg_friendly: true,
            blocks,
            reference_url: None,
        },
    );

    let r = Catalog { movements, microdoses };
    proof {
        assert(spec_microdoses_views(r)[0].blocks[0].metrics =~= seq![
            MetricSpecView::Reps {
                key: "reps"@,
                default: 5,
                min: 3,
                max: 15,
                step: 1,
                progressable: true,
            },
        ]);
        assert(spec_microdoses_views(r)[1].blocks[0].metrics =~= seq![
            MetricSpecView::Reps {
                key: "reps"@,
                default: 3,
                min: 2,
                max: 10,
                step: 1,
                progressable: true,
            },
        ]);
        assert(spec_microdoses_views(r)[2].blocks[0].metrics =~= seq![
            MetricSpecView::Reps {
                key: "reps"@,
                default: 3,
                min: 1,
                max: 8,
                step: 1,
                progressable: true,
            },
            MetricSpecView::Band { key: "band"@, default: "red"@, progressable: false },
        ]);
        assert(spec_microdoses_views(r)[3].blocks[0].metrics =~= seq![
            MetricSpecView::Reps {
                key: "reps_per_side"@,
                default: 3,
                min: 2,
                max: 5,
                step: 1,
                progressable: false,
            },
        ]);
        assert(spec_microdoses_views(r)[4].blocks[0].metrics =~= seq![
            MetricSpecView::Reps {
                key: "reps_per_side"@,
                default: 3,
                min: 2,
                max: 5,
                step: 1,
                progressable: false,
            },
        ]);
        lemma_default_catalog_valid(r);
    }
    r
}

/// The built catalog satisfies every validation invariant: nonempty names
/// and identifiers, distinct identifiers, every block referencing an
/// existing movement, consistent metric ranges, and one definition in every
/// category.
proof fn lemma_default_catalog_valid(r: Catalog)
    requires
        spec_default_catalog(r),
    ensures
        spec_catalog_valid(r),
{
    let ms = spec_movements_views(r);
    let ds = spec_microdoses_views(r);
    reveal_strlit("kb_swing_2h");
    reveal_strlit("burpee");
    reveal_strlit("pullup");
    reveal_strlit("hip_cars");
    reveal_strlit("shoulder_cars");
    reveal_strlit("emom_kb_swing_5m");
    reveal_strlit("emom_burpee_5m");
    reveal_strlit("gtg_pullup_band");
    reveal_strlit("mobility_hip_cars");
    reveal_strlit("mobility_shoulder_cars");
    reveal_strlit("Kettlebell Swing (2-hand)");
    reveal_strlit("Burpee");
    reveal_strlit("Pull-up");
    reveal_strlit("Hip Controlled Articular Rotations (CARs)");
    reveal_strlit("Shoulder Controlled Articular Rotations (CARs)");
    reveal_strlit("5-Min EMOM: KB Swings (2-hand)");
    reveal_strlit("5-Min EMOM: Burpees");
    reveal_strlit("GTG: Banded Pull-ups");
    reveal_strlit("Hip CARs (3 reps each side)");
    reveal_strlit("Shoulder CARs (3 reps each side)");
    reveal_strlit("red");
    assert forall|i: int| 0 <= i < ms.len() implies spec_movement_valid(#[trigger] ms[i]) by {
        assert(ms[0].id.len() == 11 && ms[1].id.len() == 6 && ms[2].id.len() == 6 && ms[3].id.len()
            == 8 && ms[4].id.len() == 13);
        assert(ms[0].name.len() > 0 && ms[1].name.len() > 0 && ms[2].name.len() > 0
            && ms[3].name.len() > 0 && ms[4].name.len() > 0);
    }
    assert(spec_unique_movement_ids(ms)) by {
        assert(ms[1].id[0] == 'b' && ms[2].id[0] == 'p');
        assert forall|i: int, j: int| 0 <= i < j < ms.len() implies #[trigger] ms[i].id
            != #[trigger] ms[j].id by {
            if ms[i].id.len() == ms[j].id.len() {
                assert(ms[i].id[0] != ms[j].id[0]);
            }
        }
    }
    assert(spec_unique_def_ids(ds)) by {
        assert(ds[0].id.len() == 16 && ds[1].id.len() == 14 && ds[2].id.len() == 15 && ds[3].id.len()
            == 17 && ds[4].id.len() == 22);
    }
    assert(spec_has_movement(ms, "kb_swing_2h"@)) by {
        assert(ms[0].id == "kb_swing_2h"@);
    }
    assert(spec_has_movement(ms, "burpee"@)) by {
        assert(ms[1].id == "burpee"@);
    }
    assert(spec_has_movement(ms, "pullup"@)) by {
        assert(ms[2].id == "pullup"@);
    }
    assert(spec_has_movement(ms, "hip_cars"@)) by {
        assert(ms[3].id == "hip_cars"@);
    }
    assert(spec_has_movement(ms, "shoulder_cars"@)) by {
        assert(ms[4].id == "shoulder_cars"@);
    }
    assert forall|i: int| 0 <= i < ds.len() implies spec_def_valid(ms, #[trigger] ds[i]) by {
        assert(ds[i].blocks.len() == 1);
        assert(ds[0].name.len() > 0 && ds[1].name.len() > 0 && ds[2].name.len() > 0
            && ds[3].name.len() > 0 && ds[4].name.len() > 0);
        assert(spec_block_valid(ms, ds[i].blocks[0])) by {
            if i == 0 {
                assert(ds[0].blocks[0].movement_id == "kb_swing_2h"@);
            } else if i == 1 {
                assert(ds[1].blocks[0].movement_id == "burpee"@);
            } else if i == 2 {
                assert(ds[2].blocks[0].movement_id == "pullup"@);
                assert(ds[2].blocks[0].metrics[1] == MetricSpecView::Band {
                    key: "band"@,
                    default: "red"@,
                    progressable: false,
                });
                assert("red"@.len() == 3);
            } else if i == 3 {
                assert(ds[3].blocks[0].movement_id == "hip_cars"@);
            } else {
                assert(ds[4].blocks[0].movement_id == "shoulder_cars"@);
            }
            assert(forall|m: int|
                0 <= m < ds[i].blocks[0].metrics.len() ==> spec_metric_valid(
                    #[trigger] ds[i].blocks[0].metrics[m],
                ));
        }
    }
    assert(spec_has_category(ds, MicrodoseCategory::Vo2)) by {
        assert(ds[0].category == MicrodoseCategory::Vo2);
    }
    assert(spec_has_category(ds, MicrodoseCategory::Gtg)) by {
        assert(ds[2].category == MicrodoseCategory::Gtg);
    }
    assert(spec_has_category(ds, MicrodoseCategory::Mobility)) by {
        assert(ds[3].category == MicrodoseCategory::Mobility);
    }
}

/// The default catalog; equivalent to building it afresh.
pub fn get_default_catalog() -> (r: Catalog)
    ensures
        spec_default_catalog(r),
        spec_catalog_valid(r),
{
    build_default_catalog()
}

} // verus!
