use cardio_core::catalog::build_default_catalog;
use cardio_core::catalog::get_default_catalog;
use cardio_core::types::MicrodoseCategory;

#[test]
fn test_catalog_loads() {
    let catalog = build_default_catalog();
    assert_eq!(catalog.movements.len(), 5);
    assert_eq!(catalog.microdoses.len(), 5);
}

#[test]
fn test_all_referenced_movements_exist() {
    let catalog = build_default_catalog();
    for def in &catalog.microdoses {
        for block in &def.blocks {
            assert!(
                catalog.movements.iter().any(|m| m.id == block.movement_id),
                "Movement {} referenced but not found",
                block.movement_id
            );
        }
    }
}

#[test]
fn test_vo2_category_exists() {
    let catalog = build_default_catalog();
    let vo2_count = catalog
        .microdoses
        .iter()
        .filter(|d| d.category == MicrodoseCategory::Vo2)
        .count();
    assert!(vo2_count >= 2, "Should have at least 2 VO2 workouts");
}

#[test]
fn test_gtg_category_exists() {
    let catalog = build_default_catalog();
    let gtg_count = catalog
        .microdoses
        .iter()
        .filter(|d| d.category == MicrodoseCategory::Gtg)
        .count();
    assert!(gtg_count >= 1, "Should have at least 1 GTG workout");
}

#[test]
fn test_mobility_category_exists() {
    let catalog = build_default_catalog();
    let mobility_count = catalog
        .microdoses
        .iter()
        .filter(|d| d.category == MicrodoseCategory::Mobility)
        .count();
    assert!(
        mobility_count >= 2,
        "Should have at least 2 mobility workouts"
    );
}

#[test]
fn test_default_catalog_validates() {
    let catalog = build_default_catalog();
    let errors = catalog.validate();
    assert!(
        errors.is_empty(),
        "Default catalog has validation errors: {:?}",
        errors
    );
}

#[test]
fn test_cached_catalog_matches_built() {
    let a = get_default_catalog();
    let b = build_default_catalog();
    assert_eq!(a.movements.len(), b.movements.len());
    assert_eq!(a.microdoses.len(), b.microdoses.len());
}

#[test]
fn test_validate_rejects_empty_name() {
    let mut catalog = build_default_catalog();
    catalog.movements[0].name = String::new();
    let errors = catalog.validate();
    assert!(!errors.is_empty());
}

#[test]
fn test_validate_rejects_duplicate_ids() {
    let mut catalog = build_default_catalog();
    let copy = catalog.microdoses[0].clone();
    catalog.microdoses.push(copy);
    let errors = catalog.validate();
    assert!(!errors.is_empty());
}

#[test]
fn test_validate_rejects_missing_movement() {
    let mut catalog = build_default_catalog();
    catalog.microdoses[0].blocks[0].movement_id = "no_such_movement".to_owned();
    let errors = catalog.validate();
    assert!(!errors.is_empty());
}
