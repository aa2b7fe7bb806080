use end_planner::aic::Region;
use end_planner::catalog::{
    Catalog, CatalogBuildError, CatalogBuilder, FacilityDef, FacilityId, FacilityRegions, ItemDef,
    ItemId, PowerRecipe, Stack, StackList, ThermalBankDef,
};
use end_planner::text::{DisplayName, Key};

fn key(value: &str) -> Key {
    Key::try_from(value).expect("valid key")
}

fn name(value: &str) -> DisplayName {
    DisplayName::try_from(value).expect("valid display name")
}

fn item(k: &str) -> ItemDef {
    ItemDef { key: key(k), en: name(k), zh: name(k), is_fluid: false }
}

fn machine(k: &str, power_w: u32) -> FacilityDef {
    FacilityDef { key: key(k), power_w, en: name(k), zh: name(k), regions: FacilityRegions::All }
}

fn sample_builder() -> (CatalogBuilder, ItemId, ItemId, FacilityId) {
    let mut builder = Catalog::builder();
    let a = builder.add_item(item("A")).expect("add item A");
    let b = builder.add_item(item("B")).expect("add item B");
    let m = builder.add_facility(machine("M1", 10)).expect("add machine");
    builder
        .add_thermal_bank(ThermalBankDef {
            key: key("Thermal Bank"),
            en: name("Thermal Bank"),
            zh: name("Thermal Bank"),
        })
        .expect("add thermal bank");
    (builder, a, b, m)
}

#[test]
fn push_recipe_rejects_duplicate_items_in_same_list() {
    let (mut builder, a, b, m) = sample_builder();
    let err = builder
        .push_recipe(
            m,
            60,
            vec![Stack { item: a, count: 1 }, Stack { item: a, count: 2 }],
            vec![Stack { item: b, count: 1 }],
        )
        .expect_err("duplicate ingredients should fail");
    assert!(
        matches!(
            err,
            CatalogBuildError::DuplicateRecipeItem { list: StackList::Ingredients, item_id }
                if item_id == a.as_u32()
        ),
        "unexpected error: {err:?}"
    );
}

#[test]
fn push_recipe_rejects_out_of_catalog_facility_id() {
    let mut other = Catalog::builder();
    let _ = other.add_facility(machine("X1", 10)).expect("add facility X1");
    let foreign_facility = other.add_facility(machine("X2", 20)).expect("add facility X2");

    let (mut builder, a, b, _m) = sample_builder();
    let err = builder
        .push_recipe(
            foreign_facility,
            60,
            vec![Stack { item: a, count: 1 }],
            vec![Stack { item: b, count: 1 }],
        )
        .expect_err("foreign facility id should fail");
    assert!(
        matches!(
            err,
            CatalogBuildError::UnknownRecipeFacilityId(facility_id)
                if facility_id == foreign_facility.as_u32()
        ),
        "unexpected error: {err:?}"
    );
}

#[test]
fn push_recipe_rejects_out_of_catalog_item_id() {
    let mut other = Catalog::builder();
    let _ = other.add_item(item("X")).expect("add item X");
    let _ = other.add_item(item("Y")).expect("add item Y");
    let foreign_item = other.add_item(item("Z")).expect("add item Z");

    let (mut builder, _a, b, m) = sample_builder();
    let err = builder
        .push_recipe(
            m,
            60,
            vec![Stack { item: foreign_item, count: 1 }],
            vec![Stack { item: b, count: 1 }],
        )
        .expect_err("foreign item id should fail");
    assert!(
        matches!(
            err,
            CatalogBuildError::UnknownRecipeItemId { list: StackList::Ingredients, item_id }
                if item_id == foreign_item.as_u32()
        ),
        "unexpected error: {err:?}"
    );
}

#[test]
fn add_facility_rejects_duplicate_key() {
    let mut builder = Catalog::builder();
    let _ = builder.add_facility(machine("M2", 10)).expect("first facility should be accepted");
    let err = builder
        .add_facility(FacilityDef {
            key: key("M2"),
            power_w: 20,
            en: name("M2-dupe"),
            zh: name("M2-dupe"),
            regions: FacilityRegions::All,
        })
        .expect_err("duplicate facility key should fail");
    assert!(
        matches!(err, CatalogBuildError::DuplicateFacilityKey(ref key) if key.as_str() == "M2"),
        "unexpected error: {err:?}"
    );
}

#[test]
fn add_thermal_bank_rejects_duplicate_machine_key() {
    let mut builder = Catalog::builder();
    let _ = builder.add_facility(machine("M2", 10)).expect("machine should be accepted");
    let err = builder
        .add_thermal_bank(ThermalBankDef { key: key("M2"), en: name("TB"), zh: name("TB") })
        .expect_err("thermal bank key colliding with machine should fail");
    assert!(
        matches!(err, CatalogBuildError::DuplicateFacilityKey(ref key) if key.as_str() == "M2"),
        "unexpected error: {err:?}"
    );
}

#[test]
fn add_thermal_bank_rejects_multiple_entries() {
    let mut builder = Catalog::builder();
    builder
        .add_thermal_bank(ThermalBankDef { key: key("TB1"), en: name("TB1"), zh: name("TB1") })
        .expect("first thermal bank should be accepted");
    let err = builder
        .add_thermal_bank(ThermalBankDef { key: key("TB2"), en: name("TB2"), zh: name("TB2") })
        .expect_err("second thermal bank should fail");
    assert!(matches!(err, CatalogBuildError::MultipleThermalBanks), "unexpected error: {err:?}");
    assert_eq!(builder.thermal_bank().expect("bank").key.as_str(), "TB1");
}

#[test]
fn build_rejects_missing_thermal_bank() {
    let mut builder = Catalog::builder();
    let _ = builder.add_item(item("A")).expect("add item");
    let _ = builder.add_facility(machine("M1", 10)).expect("add machine");
    let err = builder.build().expect_err("missing thermal bank should fail");
    assert!(matches!(err, CatalogBuildError::MissingThermalBank), "unexpected error: {err:?}");
}

#[test]
fn thermal_bank_key_cannot_repeat_or_be_taken_by_a_machine() {
    let mut builder = Catalog::builder();
    builder
        .add_thermal_bank(ThermalBankDef { key: key("TB"), en: name("TB"), zh: name("TB") })
        .expect("bank");
    let err = builder
        .add_thermal_bank(ThermalBankDef { key: key("TB"), en: name("TB"), zh: name("TB") })
        .expect_err("same key again");
    assert!(matches!(err, CatalogBuildError::DuplicateFacilityKey(ref k) if k.as_str() == "TB"));
    let err = builder.add_facility(machine("TB", 5)).expect_err("machine with the bank's key");
    assert!(matches!(err, CatalogBuildError::DuplicateFacilityKey(ref k) if k.as_str() == "TB"));
    assert_eq!(CatalogBuildError::MultipleThermalBanks.message(), "Multiple thermal banks");
    assert_eq!(CatalogBuildError::MissingThermalBank.message(), "Missing thermal bank");
}

#[test]
fn push_power_recipe_rejects_out_of_catalog_item_id() {
    let mut other = Catalog::builder();
    let _ = other.add_item(item("X")).expect("add item X");
    let _ = other.add_item(item("Y")).expect("add item Y");
    let foreign_item = other.add_item(item("Z")).expect("add item Z");

    let (mut builder, _, _, _) = sample_builder();
    let err = builder
        .push_power_recipe(PowerRecipe {
            ingredient: Stack { item: foreign_item, count: 1 },
            power_w: 100,
            time_s: 10,
        })
        .expect_err("foreign ingredient item should fail");
    assert!(
        matches!(
            err,
            CatalogBuildError::UnknownPowerRecipeIngredientItemId(item_id)
                if item_id == foreign_item.as_u32()
        ),
        "unexpected error: {err:?}"
    );
}

#[test]
fn push_power_recipe_rejects_zero_fields() {
    let (mut builder, a, _, _) = sample_builder();

    let err_count = builder
        .push_power_recipe(PowerRecipe { ingredient: Stack { item: a, count: 0 }, power_w: 1, time_s: 1 })
        .expect_err("zero ingredient count should fail");
    assert!(
        matches!(
            err_count,
            CatalogBuildError::PowerRecipeIngredientCountMustBePositive { item_id }
                if item_id == a.as_u32()
        ),
        "unexpected error: {err_count:?}"
    );

    let err_power = builder
        .push_power_recipe(PowerRecipe { ingredient: Stack { item: a, count: 1 }, power_w: 0, time_s: 1 })
        .expect_err("zero power should fail");
    assert!(
        matches!(err_power, CatalogBuildError::PowerRecipePowerMustBePositive),
        "unexpected error: {err_power:?}"
    );

    let err_time = builder
        .push_power_recipe(PowerRecipe { ingredient: Stack { item: a, count: 1 }, power_w: 1, time_s: 0 })
        .expect_err("zero time should fail");
    assert!(
        matches!(err_time, CatalogBuildError::PowerRecipeTimeMustBePositive),
        "unexpected error: {err_time:?}"
    );
}

#[test]
fn catalog_ids_are_dense_and_lookups_agree() {
    let (mut builder, a, b, m) = sample_builder();
    let r = builder
        .push_recipe(m, 2, vec![Stack { item: a, count: 1 }], vec![Stack { item: b, count: 1 }])
        .expect("valid recipe");
    let catalog = builder.build().expect("build");
    assert_eq!(a.as_u32(), 0);
    assert_eq!(b.as_u32(), 1);
    assert_eq!(m.as_u32(), 0);
    assert_eq!(r.as_u32(), 0);
    assert_eq!(catalog.item_id("B"), Some(b));
    assert_eq!(catalog.item_id("missing"), None);
    assert_eq!(catalog.facility_id("M1"), Some(m));
    assert_eq!(catalog.facility_id("Thermal Bank"), None);
    assert_eq!(catalog.item(a).expect("item").key.as_str(), "A");
    assert_eq!(catalog.recipe(r).expect("recipe").time_s, 2);
    assert_eq!(catalog.thermal_bank().key.as_str(), "Thermal Bank");
    assert_eq!(catalog.item_ids(), vec![a, b]);
    assert_eq!(catalog.recipe_ids(), vec![r]);
}

#[test]
fn add_item_rejects_duplicate_key() {
    let mut builder = Catalog::builder();
    builder.add_item(item("A")).expect("first");
    let err = builder.add_item(item("A")).expect_err("duplicate");
    assert!(matches!(err, CatalogBuildError::DuplicateItemKey(ref k) if k.as_str() == "A"));
    assert_eq!(err.message(), "Duplicate item key: A");
}

#[test]
fn push_recipe_rejects_empty_lists_and_zero_time() {
    let (mut builder, a, b, m) = sample_builder();
    let e = builder.push_recipe(m, 0, vec![Stack { item: a, count: 1 }], vec![Stack { item: b, count: 1 }]);
    assert!(matches!(e, Err(CatalogBuildError::RecipeTimeMustBePositive)));
    let e = builder.push_recipe(m, 1, vec![], vec![Stack { item: b, count: 1 }]);
    assert!(matches!(e, Err(CatalogBuildError::RecipeIngredientsMustNotBeEmpty)));
    let e = builder.push_recipe(m, 1, vec![Stack { item: a, count: 1 }], vec![]);
    assert!(matches!(e, Err(CatalogBuildError::RecipeProductsMustNotBeEmpty)));
    let e = builder.push_recipe(m, 1, vec![Stack { item: a, count: 0 }], vec![Stack { item: b, count: 1 }]);
    let err = e.expect_err("zero count");
    assert_eq!(err.message(), "Recipe ingredients count must be positive for item id 0");
}

#[test]
fn add_facility_rejects_zero_power() {
    let mut builder = Catalog::builder();
    let err = builder.add_facility(machine("M0", 0)).expect_err("zero power");
    assert!(matches!(err, CatalogBuildError::FacilityPowerMustBePositive { ref key } if key.as_str() == "M0"));
}

#[test]
fn facility_regions_restrict_availability() {
    let mut builder = Catalog::builder();
    let fv = builder
        .add_facility(FacilityDef {
            key: key("FV"),
            power_w: 1,
            en: name("FV"),
            zh: name("FV"),
            regions: FacilityRegions::FourthValleyOnly,
        })
        .expect("fv");
    let all = builder.add_facility(machine("ALL", 1)).expect("all");
    builder
        .add_thermal_bank(ThermalBankDef { key: key("TB"), en: name("TB"), zh: name("TB") })
        .expect("bank");
    let catalog = builder.build().expect("build");
    assert!(catalog.facility_available_in_region(fv, Region::FourthValley));
    assert!(!catalog.facility_available_in_region(fv, Region::Wuling));
    assert!(catalog.facility_available_in_region(all, Region::Wuling));
    assert!(FacilityRegions::WulingOnly.allows(Region::Wuling));
    assert!(!FacilityRegions::WulingOnly.allows(Region::FourthValley));
}

#[test]
fn builder_reports_its_thermal_bank() {
    let fresh = Catalog::builder();
    assert!(fresh.thermal_bank().is_none());
    let (builder, _, _, _) = sample_builder();
    assert_eq!(builder.thermal_bank().expect("bank").key.as_str(), "Thermal Bank");
}
