//! Application configuration: data directory, available equipment and
//! progression parameters. Reading and writing the configuration file is the
//! caller's business; the library owns the values and their defaults.

use vstd::prelude::*;

verus! {

/// Data storage configuration. An empty directory means "not configured";
/// the surrounding application substitutes its platform default.
#[derive(Clone, Debug)]
pub struct DataConfig {
    pub data_dir: String,
}

impl Default for DataConfig {
    fn default() -> (r: Self)
        ensures
            r.data_dir@ == Seq::<char>::empty(),
    {
        DataConfig { data_dir: String::new() }
    }
}

/// Equipment availability configuration.
#[derive(Clone, Debug)]
pub struct EquipmentConfig {
    pub available: Vec<String>,
}

impl Default for EquipmentConfig {
    fn default() -> (r: Self)
        ensures
            r.available@.len() == 3,
    {
        EquipmentConfig { available: default_equipment() }
    }
}

/// Progression parameters configuration.
#[derive(Clone, Debug)]
pub struct ProgressionConfig {
    pub burpee_rep_ceiling: i32,
    pub kb_swing_max_reps: i32,
}

impl Default for ProgressionConfig {
    fn default() -> (r: Self)
        ensures
            r.burpee_rep_ceiling == 10,
            r.kb_swing_max_reps == 15,
    {
        ProgressionConfig {
            burpee_rep_ceiling: default_burpee_rep_ceiling(),
            kb_swing_max_reps: default_kb_swing_max_reps(),
        }
    }
}

/// Custom mobility drill definition.
#[derive(Clone, Debug)]
pub struct CustomMobilityDrill {
    pub id: String,
    pub name: String,
    pub url: Option<String>,
}

/// Mobility drills configuration.
#[derive(Clone, Debug)]
pub struct MobilityConfig {
    pub custom: Vec<CustomMobilityDrill>,
}

impl Default for MobilityConfig {
    fn default() -> (r: Self)
        ensures
            r.custom@.len() == 0,
    {
        MobilityConfig { custom: Vec::new() }
    }
}

/// Application configuration.
#[derive(Clone, Debug)]
pub struct Config {
    pub data: DataConfig,
    pub equipment: EquipmentConfig,
    pub progression: ProgressionConfig,
    pub mobility: MobilityConfig,
}

impl Default for Config {
    fn default() -> (r: Self)
        ensures
            r.progression.burpee_rep_ceiling == 10,
            r.progression.kb_swing_max_reps == 15,
            r.equipment.available@.len() == 3,
    {
        Config {
            data: DataConfig::default(),
            equipment: EquipmentConfig::default(),
            progression: ProgressionConfig::default(),
            mobility: MobilityConfig::default(),
        }
    }
}

/// Equipment assumed available when nothing is configured.
pub fn default_equipment() -> (r: Vec<String>)
    ensures
        r@.len() == 3,
        r@[0]@ == "kettlebell"@,
        r@[1]@ == "pullup_bar"@,
        r@[2]@ == "bands"@,
{
    let mut v: Vec<String> = Vec::new();
    v.push("kettlebell".to_owned());
    v.push("pullup_bar".to_owned());
    v.push("bands".to_owned());
    v
}

/// Default rep ceiling for the burpee progression.
pub fn default_burpee_rep_ceiling() -> (r: i32)
    ensures
        r == 10,
{
    10
}

/// Default rep cap for the kettlebell swing progression.
pub fn default_kb_swing_max_reps() -> (r: i32)
    ensures
        r == 15,
{
    15
}

} // verus!
