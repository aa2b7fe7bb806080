use end_planner::aic::{PowerConfig, Region};
use end_planner::load_error::{
    map_aic_build_error, map_recipe_build_error, render_schema_error, schema_index_suffix,
    LoadError, RecipeSpanContext,
};
use end_planner::loader::{
    build_catalog, facility_regions, resolve_aic, AicDoc, CatalogDocs, ItemDoc, ItemValueDoc,
    MachineDoc, OutpostDoc, PowerRecipeDoc, RecipeDoc, StackDoc, ThermalBankDoc,
};
use end_planner::catalog::{CatalogBuildError, FacilityRegions, StackList};
use end_planner::schema::{
    default_aic_version, default_power_enabled, default_region, parse_non_negative_u32,
    parse_positive_u32, parse_region, parse_supported_aic_version, resolve_power,
};
use end_planner::text::{DisplayName, Key};

fn key(value: &str) -> Key {
    Key::try_from(value).expect("valid key")
}

fn name(value: &str) -> DisplayName {
    DisplayName::try_from(value).expect("valid display name")
}

fn item_doc(k: &str) -> ItemDoc {
    ItemDoc { key: key(k), en: name(k), zh: name(&format!("{k}_zh")), fluid: false, span: Some(0..1) }
}

fn machine_doc(k: &str, power_w: u32) -> MachineDoc {
    MachineDoc {
        key: key(k),
        power_w,
        en: name(k),
        zh: name(&format!("{k}_zh")),
        regions: vec![],
        span: Some(2..3),
    }
}

fn stack(item: &str, count: u32) -> StackDoc {
    StackDoc { item: key(item), count }
}

fn spans() -> RecipeSpanContext {
    RecipeSpanContext { recipe: Some(10..20), ingredients: Some(11..12), products: None }
}

fn valid_docs() -> CatalogDocs {
    CatalogDocs {
        items_path: "items.toml".to_string(),
        items: vec![item_doc("A"), item_doc("B")],
        facilities_path: "facilities.toml".to_string(),
        machines: vec![machine_doc("M1", 10)],
        thermal_bank: ThermalBankDoc {
            key: key("Thermal Bank"),
            en: name("Thermal Bank"),
            zh: name("Thermal_Bank_zh"),
            span: None,
        },
        recipes_path: "recipes.toml".to_string(),
        recipes: vec![RecipeDoc {
            facility: key("M1"),
            time_s: 1,
            ingredients: vec![stack("A", 1)],
            products: vec![stack("B", 1)],
            spans: spans(),
        }],
        power_recipes: vec![],
    }
}

#[test]
fn load_builtin_like_catalog_success() {
    let catalog = build_catalog(&valid_docs()).expect("valid catalog");
    assert_eq!(catalog.items().len(), 2);
    assert_eq!(catalog.facilities().len(), 1);
    assert_eq!(catalog.recipes().len(), 1);
    assert_eq!(catalog.items()[1].zh.as_str(), "B_zh");
    assert_eq!(catalog.thermal_bank().key.as_str(), "Thermal Bank");
}

#[test]
fn duplicate_item_key_returns_error() {
    let mut docs = valid_docs();
    docs.items.push(item_doc("A"));
    let err = build_catalog(&docs).expect_err("duplicate item key must fail");
    assert!(
        matches!(err, LoadError::DuplicateKey { ref path, kind, ref key, .. }
            if path == "items.toml" && kind == "item" && key == "A"),
        "unexpected error: {err:?}"
    );
    assert_eq!(err.render(None), "Duplicate item key `A` in items.toml, span=0..1");
}

#[test]
fn recipe_cannot_use_thermal_bank_facility() {
    let mut docs = valid_docs();
    docs.recipes[0].facility = key("Thermal Bank");
    let err = build_catalog(&docs).expect_err("thermal bank is not a machine");
    assert!(
        matches!(err, LoadError::UnknownFacility { ref key, .. } if key == "Thermal Bank"),
        "unexpected error: {err:?}"
    );
}

#[test]
fn duplicate_item_in_recipe_ingredients_returns_schema_error() {
    let mut docs = valid_docs();
    docs.recipes[0].ingredients = vec![stack("A", 1), stack("A", 2)];
    let err = build_catalog(&docs).expect_err("duplicate ingredient must fail");
    match err {
        LoadError::Schema { ref path, field, index, ref span, ref message } => {
            assert_eq!(path, "recipes.toml");
            assert_eq!(field, "recipes.ingredients");
            assert_eq!(index, Some(0));
            assert_eq!(span.clone(), Some(11..12));
            assert_eq!(message, "Recipe ingredients contains duplicate item id 0");
        }
        other => panic!("unexpected error: {other:?}"),
    }
}

#[test]
fn unknown_recipe_facility_returns_unknown_facility_error() {
    let mut docs = valid_docs();
    docs.recipes[0].facility = key("NoSuchMachine");
    let err = build_catalog(&docs).expect_err("unknown facility must fail");
    assert!(
        matches!(err, LoadError::UnknownFacility { ref key, .. } if key == "NoSuchMachine"),
        "unexpected error: {err:?}"
    );
}

#[test]
fn unknown_item_in_recipe_returns_unknown_item_error() {
    let mut docs = valid_docs();
    docs.recipes[0].products = vec![stack("NoSuchItem", 1)];
    let err = build_catalog(&docs).expect_err("unknown item must fail");
    assert!(
        matches!(err, LoadError::UnknownItem { ref key, .. } if key == "NoSuchItem"),
        "unexpected error: {err:?}"
    );
}

#[test]
fn non_positive_machine_power_is_rejected_by_the_catalog() {
    let mut docs = valid_docs();
    docs.machines[0].power_w = 0;
    let err = build_catalog(&docs).expect_err("zero power must fail");
    match err {
        LoadError::Schema { field, index, ref message, .. } => {
            assert_eq!(field, "machines");
            assert_eq!(index, Some(0));
            assert_eq!(message, "Facility power must be positive: M1");
        }
        other => panic!("unexpected error: {other:?}"),
    }
}

#[test]
fn thermal_bank_key_colliding_with_machine_is_a_duplicate() {
    let mut docs = valid_docs();
    docs.thermal_bank.key = key("M1");
    let err = build_catalog(&docs).expect_err("bank key collides");
    assert!(matches!(err, LoadError::DuplicateKey { kind, ref key, .. } if kind == "facility" && key == "M1"));
}

#[test]
fn power_recipes_are_checked() {
    let mut docs = valid_docs();
    docs.power_recipes.push(PowerRecipeDoc { ingredient: stack("A", 1), power_w: 0, time_s: 5, span: Some(4..5) });
    let err = build_catalog(&docs).expect_err("zero power");
    match err {
        LoadError::Schema { field, index, ref span, ref message, .. } => {
            assert_eq!(field, "power_recipes");
            assert_eq!(index, Some(0));
            assert_eq!(span.clone(), Some(4..5));
            assert_eq!(message, "Power recipe power must be positive");
        }
        other => panic!("unexpected error: {other:?}"),
    }
    docs.power_recipes[0].power_w = 50;
    let catalog = build_catalog(&docs).expect("valid now");
    assert_eq!(catalog.power_recipes()[0].power_w, 50);
}

#[test]
fn machine_regions_map_to_availability() {
    assert_eq!(facility_regions(&vec![]), FacilityRegions::All);
    assert_eq!(facility_regions(&vec![Region::Wuling]), FacilityRegions::WulingOnly);
    assert_eq!(facility_regions(&vec![Region::FourthValley]), FacilityRegions::FourthValleyOnly);
    assert_eq!(facility_regions(&vec![Region::FourthValley, Region::Wuling]), FacilityRegions::All);
}

fn aic_doc() -> AicDoc {
    AicDoc {
        path: "aic.toml".to_string(),
        region: Region::FourthValley,
        power: PowerConfig::default(),
        power_slack_requested: false,
        supply_per_min: vec![ItemValueDoc { item: key("A"), value: 5 }],
        supply_span: Some(30..40),
        external_consumption_per_min: vec![],
        consumption_span: None,
        outposts: vec![OutpostDoc {
            key: key("Camp"),
            money_cap_per_hour: 60,
            en: None,
            zh: Some(name("营地")),
            prices: vec![ItemValueDoc { item: key("B"), value: 3 }],
            prices_span: Some(50..60),
            span: Some(45..70),
        }],
    }
}

#[test]
fn load_aic_accepts_power_and_objective_sections() {
    let catalog = build_catalog(&valid_docs()).expect("catalog");
    let mut doc = aic_doc();
    doc.power = PowerConfig::Enabled { external_production_w: 260, external_consumption_w: 11 };
    doc.external_consumption_per_min = vec![ItemValueDoc { item: key("A"), value: 1 }];
    let aic = resolve_aic(&doc, &catalog).expect("valid aic should load");
    assert_eq!(
        aic.power_config(),
        PowerConfig::Enabled { external_production_w: 260, external_consumption_w: 11 }
    );
    assert_eq!(aic.region(), Region::FourthValley);
    assert_eq!(aic.external_consumption_per_min().len(), 1);
    assert_eq!(aic.outposts().len(), 1);
}

#[test]
fn load_aic_rejects_unknown_supply_item() {
    let catalog = build_catalog(&valid_docs()).expect("catalog");
    let mut doc = aic_doc();
    doc.supply_per_min = vec![ItemValueDoc { item: key("Unknown Item"), value: 1 }];
    let err = resolve_aic(&doc, &catalog).expect_err("unknown item should fail");
    assert!(
        matches!(err, LoadError::UnknownItem { ref key, ref span, .. } if key == "Unknown Item" && span.is_some()),
        "unexpected error: {err:?}"
    );
}

#[test]
fn load_aic_rejects_unknown_external_consumption_item() {
    let catalog = build_catalog(&valid_docs()).expect("catalog");
    let mut doc = aic_doc();
    doc.external_consumption_per_min = vec![ItemValueDoc { item: key("Unknown Item"), value: 1 }];
    doc.consumption_span = Some(1..2);
    let err = resolve_aic(&doc, &catalog).expect_err("unknown item should fail");
    assert!(
        matches!(err, LoadError::UnknownItem { ref key, ref span, .. } if key == "Unknown Item" && span.is_some()),
        "unexpected error: {err:?}"
    );
}

#[test]
fn load_aic_rejects_duplicate_outpost_keys() {
    let catalog = build_catalog(&valid_docs()).expect("catalog");
    let mut doc = aic_doc();
    let second = OutpostDoc {
        key: key("Camp"),
        money_cap_per_hour: 1,
        en: None,
        zh: None,
        prices: vec![],
        prices_span: None,
        span: Some(80..90),
    };
    doc.outposts.push(second);
    let err = resolve_aic(&doc, &catalog).expect_err("duplicate outpost should fail");
    assert!(
        matches!(err, LoadError::DuplicateKey { kind, ref key, ref span, .. }
            if kind == "outpost" && key == "Camp" && span.clone() == Some(80..90)),
        "unexpected error: {err:?}"
    );
}

#[test]
fn load_aic_rejects_max_power_slack_when_power_disabled() {
    let catalog = build_catalog(&valid_docs()).expect("catalog");
    let mut doc = aic_doc();
    doc.power = PowerConfig::Disabled;
    doc.power_slack_requested = true;
    let err = resolve_aic(&doc, &catalog).expect_err("power slack should be rejected");
    assert!(
        matches!(err, LoadError::Schema { field, ref message, .. }
            if field == "objective.max_power_slack" && message.contains("must be 0 when power.enabled = false")),
        "unexpected error: {err:?}"
    );
}

#[test]
fn resolved_tables_use_last_value_per_item() {
    let catalog = build_catalog(&valid_docs()).expect("catalog");
    let mut doc = aic_doc();
    doc.supply_per_min = vec![
        ItemValueDoc { item: key("A"), value: 5 },
        ItemValueDoc { item: key("B"), value: 2 },
        ItemValueDoc { item: key("A"), value: 9 },
    ];
    let aic = resolve_aic(&doc, &catalog).expect("valid");
    let a = catalog.item_id("A").expect("A");
    assert_eq!(aic.supply_per_min().len(), 2);
    assert_eq!(aic.supply_per_min().get(a), Some(&9));
    assert_eq!(aic.outposts()[0].zh.as_ref().expect("zh").as_str(), "营地");
}

#[test]
fn schema_values_are_checked_with_messages() {
    assert_eq!(parse_positive_u32(0), Err("must be >= 1, got 0".to_string()));
    assert_eq!(parse_positive_u32(7), Ok(7));
    assert_eq!(parse_positive_u32(4294967296), Err("out of range for u32: 4294967296".to_string()));
    assert_eq!(parse_non_negative_u32(-1), Err("must be >= 0, got -1".to_string()));
    assert_eq!(parse_non_negative_u32(0), Ok(0));
    assert_eq!(parse_supported_aic_version(2), Ok(2));
    assert_eq!(
        parse_supported_aic_version(1),
        Err("unsupported aic version `1`, expected 2".to_string())
    );
    assert_eq!(parse_region("wuling"), Ok(Region::Wuling));
    assert_eq!(
        parse_region("unknown"),
        Err("invalid region `unknown`, expected one of: fourth_valley, wuling".to_string())
    );
}

#[test]
fn power_section_rules() {
    assert_eq!(
        resolve_power(true, None, None, None),
        Ok(PowerConfig::Enabled { external_production_w: 200, external_consumption_w: 0 })
    );
    assert_eq!(
        resolve_power(true, Some(260), None, Some(11)),
        Ok(PowerConfig::Enabled { external_production_w: 260, external_consumption_w: 11 })
    );
    assert_eq!(resolve_power(false, None, None, None), Ok(PowerConfig::Disabled));
    assert_eq!(
        resolve_power(true, None, Some(1), Some(2)),
        Err("power.external_consumption and power.enternal_consumption conflict".to_string())
    );
    assert_eq!(
        resolve_power(false, Some(1), None, None),
        Err("power.external_production/power.external_consumption are not allowed when power.enabled = false".to_string())
    );
    assert_eq!(
        resolve_power(true, None, Some(4), Some(4)),
        Ok(PowerConfig::Enabled { external_production_w: 200, external_consumption_w: 4 })
    );
}

#[test]
fn schema_error_rendering() {
    assert_eq!(schema_index_suffix(Some(3)), ", index=3");
    assert_eq!(schema_index_suffix(None), "");
    let text = render_schema_error("items.toml", "items.key", Some(0), None, None, "bad");
    assert_eq!(text, "Schema error in items.toml, field `items.key`, index=0: bad");
    let text = render_schema_error("a.toml", "f", None, Some(&(1..2)), None, "m");
    assert_eq!(text, "Schema error in a.toml, field `f`: m, span=1..2");
}

#[test]
fn recipe_errors_point_at_the_most_specific_span() {
    let e = map_recipe_build_error(
        "recipes.toml",
        2,
        RecipeSpanContext { recipe: Some(1..9), ingredients: None, products: Some(5..6) },
        CatalogBuildError::DuplicateRecipeItem { list: StackList::Products, item_id: 4 },
    );
    match e {
        LoadError::Schema { field, index, span, .. } => {
            assert_eq!(field, "recipes.products");
            assert_eq!(index, Some(2));
            assert_eq!(span, Some(5..6));
        }
        other => panic!("unexpected: {other:?}"),
    }
    let e = map_recipe_build_error(
        "recipes.toml",
        0,
        RecipeSpanContext { recipe: Some(1..9), ingredients: None, products: None },
        CatalogBuildError::RecipeIngredientsMustNotBeEmpty,
    );
    assert!(matches!(e, LoadError::Schema { field, span: Some(ref s), .. } if field == "recipes.ingredients" && *s == (1..9)));
}

#[test]
fn unknown_errors_render_their_headline() {
    let e = LoadError::UnknownItem { path: "aic.toml".to_string(), key: "X".to_string(), span: None };
    assert_eq!(e.render(None), "Unknown item `X` in aic.toml");
    let e = LoadError::UnknownFacility { path: "r.toml".to_string(), key: "F".to_string(), span: Some(8..9) };
    assert_eq!(e.render(None), "Unknown facility `F` in r.toml, span=8..9");
    let dup = map_aic_build_error(
        "aic.toml",
        end_planner::aic::AicBuildError::DuplicateOutpostKey { key: key("Dup") },
        None,
    );
    assert_eq!(dup.render(None), "Duplicate outpost key `Dup` in aic.toml");
}

// The value checks that the file readers apply while parsing `aic.toml`
// and the catalog files.

#[test]
fn load_aic_rejects_zero_supply_value() {
    let err = parse_positive_u32(0).expect_err("zero supply should fail");
    assert!(err.contains("must be >= 1, got 0"), "unexpected message: {err}");
}

#[test]
fn load_aic_rejects_zero_external_consumption_value() {
    let err = parse_positive_u32(0).expect_err("zero consumption should fail");
    assert!(err.contains("must be >= 1, got 0"), "unexpected message: {err}");
}

#[test]
fn load_aic_rejects_negative_power_external_consumption() {
    let err = parse_non_negative_u32(-1).expect_err("negative external consumption should fail");
    assert!(err.contains("must be >= 0, got -1"), "unexpected message: {err}");
}

#[test]
fn load_aic_rejects_power_fields_when_disabled() {
    let err = resolve_power(false, Some(200), None, None).expect_err("power fields should be rejected");
    assert!(err.contains("are not allowed when power.enabled = false"), "unexpected message: {err}");
}

#[test]
fn load_aic_accepts_enternal_consumption_alias() {
    let power = resolve_power(true, Some(250), None, Some(10)).expect("alias should be accepted");
    assert_eq!(power, PowerConfig::Enabled { external_production_w: 250, external_consumption_w: 10 });
}

#[test]
fn load_aic_rejects_negative_outpost_price() {
    let err = parse_non_negative_u32(-1).expect_err("negative price should fail");
    assert!(err.contains("must be >= 0, got -1"), "unexpected message: {err}");
}

#[test]
fn load_aic_rejects_outpost_key_with_spaces() {
    let err = Key::try_from(" Camp ").expect_err("spaced outpost key should fail");
    assert!(err.message().contains("Key must not have leading/trailing spaces"));
}

#[test]
fn load_aic_rejects_invalid_region() {
    let err = parse_region("unknown").expect_err("invalid region should fail");
    assert!(err.contains("invalid region `unknown`"), "unexpected message: {err}");
}

#[test]
fn load_aic_rejects_unsupported_version() {
    let err = parse_supported_aic_version(1).expect_err("unsupported version should fail");
    assert!(err.contains("unsupported aic version `1`, expected 2"), "unexpected message: {err}");
}

#[test]
fn load_aic_uses_latest_defaults_when_version_and_sections_are_omitted() {
    assert_eq!(default_aic_version(), 2);
    assert_eq!(default_region(), Region::FourthValley);
    let power = resolve_power(default_power_enabled(), None, None, None).expect("defaults");
    assert_eq!(power, PowerConfig::Enabled { external_production_w: 200, external_consumption_w: 0 });
    assert_eq!(power, PowerConfig::default());

    let catalog = build_catalog(&valid_docs()).expect("catalog");
    let doc = AicDoc {
        path: "aic.toml".to_string(),
        region: default_region(),
        power,
        power_slack_requested: false,
        supply_per_min: vec![],
        supply_span: None,
        external_consumption_per_min: vec![],
        consumption_span: None,
        outposts: vec![],
    };
    let aic = resolve_aic(&doc, &catalog).expect("empty aic should load");
    assert_eq!(aic.power_config(), power);
    assert_eq!(aic.region(), Region::FourthValley);
    assert!(aic.outposts().is_empty());
}

#[test]
fn key_with_leading_or_trailing_spaces_is_rejected() {
    let err = Key::try_from(" M1 ").expect_err("spaced key should fail");
    assert!(err.message().contains("Key must not have leading/trailing spaces"));
}

#[test]
fn blank_i18n_text_is_rejected() {
    let err = DisplayName::try_from("   ").expect_err("blank zh text should fail");
    assert!(err.message().contains("must not be blank"));
}

#[test]
fn non_positive_machine_power_is_rejected() {
    let err = parse_positive_u32(0).expect_err("machine power must be >= 1");
    assert!(err.contains("must be >= 1, got 0"), "unexpected message: {err}");
}

#[test]
fn the_first_problem_of_the_files_is_reported() {
    // A repeated item is found before an unknown recipe facility.
    let mut docs = valid_docs();
    docs.items.push(item_doc("B"));
    docs.recipes[0].facility = key("Nowhere");
    let err = build_catalog(&docs).expect_err("invalid files");
    assert!(matches!(err, LoadError::DuplicateKey { kind, ref key, .. } if kind == "item" && key == "B"));

    // Among recipes, the earlier one is reported; an unknown ingredient
    // points at the ingredient list.
    let mut docs = valid_docs();
    docs.recipes[0].ingredients = vec![stack("Nope", 1), stack("Also", 1)];
    docs.recipes.push(RecipeDoc {
        facility: key("Nowhere"),
        time_s: 1,
        ingredients: vec![stack("A", 1)],
        products: vec![stack("B", 1)],
        spans: spans(),
    });
    let err = build_catalog(&docs).expect_err("invalid files");
    assert!(matches!(err, LoadError::UnknownItem { ref path, ref key, ref span }
        if path == "recipes.toml" && key == "Nope" && span.clone() == Some(11..12)));

    // A repeated ingredient is a schema error of the ingredient list.
    let mut docs = valid_docs();
    docs.recipes[0].ingredients = vec![stack("A", 1), stack("A", 2)];
    let err = build_catalog(&docs).expect_err("invalid files");
    assert!(matches!(err, LoadError::Schema { ref path, field, index, ref span, ref message }
        if path == "recipes.toml" && field == "recipes.ingredients" && index == Some(0)
            && span.clone() == Some(11..12) && message == "Recipe ingredients contains duplicate item id 0"));
}

#[test]
fn the_first_problem_of_a_scenario_is_reported() {
    let catalog = build_catalog(&valid_docs()).expect("catalog");
    let mut doc = aic_doc();
    doc.supply_per_min = vec![ItemValueDoc { item: key("Ghost"), value: 1 }];
    doc.outposts.push(OutpostDoc {
        key: key("Camp"),
        money_cap_per_hour: 1,
        en: None,
        zh: None,
        prices: vec![],
        prices_span: None,
        span: Some(80..90),
    });
    let err = resolve_aic(&doc, &catalog).expect_err("invalid scenario");
    assert!(matches!(err, LoadError::UnknownItem { ref key, ref span, .. }
        if key == "Ghost" && span.clone() == Some(30..40)));

    // Power slack with power disabled comes first of all.
    doc.power = PowerConfig::Disabled;
    doc.power_slack_requested = true;
    let err = resolve_aic(&doc, &catalog).expect_err("invalid scenario");
    assert!(matches!(err, LoadError::Schema { field, .. } if field == "objective.max_power_slack"));
}
