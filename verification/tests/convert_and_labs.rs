use end_planner::brand_lab;
use end_planner::convert::{
    convert_recipes, facility_zh, item_zh, lua_recipe_from_parts, parse_positive_u32,
    split_parenthesized, thermal_to_power, ConvertError, LuaRecipe, LuaStack,
};
use end_planner::two_scenario_lab;

fn st(item: &str, count: i64) -> LuaStack {
    LuaStack { item: item.to_string(), count }
}

fn recipe(facility: &str, time_s: u32, ingredients: Vec<LuaStack>, products: Vec<LuaStack>) -> LuaRecipe {
    LuaRecipe { ingredients, products, facility: facility.to_string(), time_s }
}

#[test]
fn chinese_names_of_items() {
    assert_eq!(item_zh("Ferrium Ore").as_deref(), Some("铁矿"));
    assert_eq!(item_zh("Jincao Seed").as_deref(), Some("金草种子"));
    assert_eq!(item_zh("Buck Capsule (A)").as_deref(), Some("精选荞愈胶囊"));
    assert_eq!(item_zh("Ferrium Bottle (Clean Water)").as_deref(), Some("铁质瓶（清水）"));
    assert_eq!(item_zh("Ferrium Bottle (Mystery)").as_deref(), Some("铁质瓶（Mystery）"));
    assert_eq!(item_zh("Unknown Thing"), None);
    assert_eq!(item_zh("Unknown (Ferrium)"), None);
    assert_eq!(facility_zh("Thermal Bank"), Some("热容池"));
    assert_eq!(facility_zh("Nowhere"), None);
}

#[test]
fn parenthesized_names_split_at_the_last_open() {
    assert_eq!(
        split_parenthesized("A (B) (C)"),
        Some(("A (B)".to_string(), "C".to_string()))
    );
    assert_eq!(split_parenthesized("A (B"), None);
    assert_eq!(split_parenthesized(" (B)"), None);
    assert_eq!(split_parenthesized("A ()"), None);
}

#[test]
fn counts_of_game_data_are_checked() {
    assert_eq!(parse_positive_u32("f", 3), Ok(3));
    assert_eq!(parse_positive_u32("f", 0), Err("f must be >= 1, got 0".to_string()));
    assert_eq!(parse_positive_u32("f", 1 << 40), Err("f out of range for u32: 1099511627776".to_string()));
}

#[test]
fn thermal_recipes_become_power_recipes() {
    let r = recipe("Thermal Bank", 40, vec![st("Wood", 1)], vec![st("Power", 50)]);
    let (stack, power) = thermal_to_power(&r).expect("valid");
    assert_eq!(stack.item, "Wood");
    assert_eq!(stack.count, 1);
    assert_eq!(power, 50);
    let bad = recipe("Thermal Bank", 40, vec![st("Wood", 1)], vec![st("Heat", 50)]);
    assert_eq!(
        thermal_to_power(&bad).err(),
        Some("thermal bank recipe product must be `Power`, got `Heat`".to_string())
    );
    let two = recipe("Thermal Bank", 40, vec![st("Wood", 1), st("Carbon", 1)], vec![st("Power", 50)]);
    assert_eq!(
        thermal_to_power(&two).err(),
        Some("thermal bank recipe must have exactly one ingredient".to_string())
    );
}

#[test]
fn recipes_with_empty_lists_are_refused() {
    let err = lua_recipe_from_parts(3, "Refining Unit".to_string(), 2, vec![], vec![st("Ferrium", 1)]).err();
    assert_eq!(err, Some("recipe[3] has empty ingredient/product list".to_string()));
}

#[test]
fn conversion_builds_sorted_tables() {
    let recipes = vec![
        recipe("Shredding Unit", 2, vec![st("Ferrium", 1)], vec![st("Ferrium Powder", 1)]),
        recipe("Refining Unit", 2, vec![st("Ferrium Ore", 1)], vec![st("Ferrium", 1)]),
        recipe("Thermal Bank", 40, vec![st("Wood", 1)], vec![st("Power", 50)]),
        recipe("Refining Unit", 1, vec![st("Carbon", 1)], vec![st("Carbon Powder", 2)]),
    ];
    let power = vec![("Refining Unit".to_string(), 5i64), ("Shredding Unit".to_string(), 3i64)];
    let t = convert_recipes(&recipes, &power, "recipe", "facility_power.toml").expect("converts");
    let item_keys: Vec<&str> = t.items.iter().map(|i| i.key.as_str()).collect();
    assert_eq!(item_keys, vec!["Carbon", "Carbon Powder", "Ferrium", "Ferrium Ore", "Ferrium Powder", "Wood"]);
    assert_eq!(t.items[5].zh, "木材");
    let machines: Vec<(&str, u32)> = t.machines.iter().map(|m| (m.key.as_str(), m.power_w)).collect();
    assert_eq!(machines, vec![("Refining Unit", 5), ("Shredding Unit", 3)]);
    assert_eq!(t.machines[0].zh, "精炼炉");
    let rows: Vec<(&str, u32)> = t.recipes.iter().map(|r| (r.facility.as_str(), r.time_s)).collect();
    assert_eq!(rows, vec![("Refining Unit", 1), ("Refining Unit", 2), ("Shredding Unit", 2)]);
    assert_eq!(t.power_recipes.len(), 1);
    assert_eq!(t.power_recipes[0].ingredient.item, "Wood");
    assert_eq!(t.thermal_bank.zh, "热容池");
}

#[test]
fn conversion_reports_missing_data() {
    let recipes = vec![recipe("Refining Unit", 2, vec![st("Ferrium Ore", 1)], vec![st("Ferrium", 1)])];
    let err = convert_recipes(&recipes, &vec![], "recipe", "facility_power.toml").expect_err("no power");
    assert!(matches!(err, ConvertError::MissingFacilityPower { ref facility } if facility == "Refining Unit"));
    let odd = vec![recipe("Refining Unit", 2, vec![st("Mystery Ore", 1)], vec![st("Ferrium", 1)])];
    let power = vec![("Refining Unit".to_string(), 5i64)];
    let err = convert_recipes(&odd, &power, "recipe", "facility_power.toml").expect_err("no zh");
    assert!(matches!(err, ConvertError::MissingI18n { kind, ref key } if kind == "item" && key == "Mystery Ore"));
    let zero = vec![recipe("Refining Unit", 2, vec![st("Ferrium Ore", 0)], vec![st("Ferrium", 1)])];
    let err = convert_recipes(&zero, &power, "recipe", "facility_power.toml").expect_err("zero count");
    assert!(matches!(err, ConvertError::Schema { ref path, ref message }
        if path == "recipe" && message == "recipe ingredient count for item `Ferrium Ore` must be >= 1, got 0"));
}

#[test]
fn parse_and_solve_same_brand_inputs() {
    let mut b = brand_lab::CatalogBuilder::new();
    b.add_item("ore".to_string()).expect("ore inserted");
    b.add_item("ingot".to_string()).expect("ingot inserted");
    let catalog = b.build();

    let aic = brand_lab::AicInputs::parse(&catalog, &vec![("ore".to_string(), 12), ("ingot".to_string(), 3)])
        .expect("aic parsed");
    let balance = brand_lab::run_solver(&catalog, &aic);

    assert_eq!(balance.as_slice(), &[12, 3]);
}

#[test]
fn parse_rejects_unknown_key() {
    let mut b = brand_lab::CatalogBuilder::new();
    b.add_item("ore".to_string()).expect("ore inserted");
    let catalog = b.build();

    let err = brand_lab::AicInputs::parse(&catalog, &vec![("missing".to_string(), 1)]).expect_err("must fail");
    assert_eq!(err, brand_lab::AicParseError::UnknownItemKey("missing".to_string()));
}

#[test]
fn brand_lab_refuses_duplicate_keys_and_sums_supply() {
    let mut b = brand_lab::CatalogBuilder::new();
    let ore = b.add_item("ore".to_string()).expect("ore");
    assert_eq!(b.add_item("ore".to_string()), Err(brand_lab::BuildError::DuplicateItemKey("ore".to_string())));
    let catalog = b.build();
    assert_eq!(catalog.item_key(ore), "ore");
    let aic = brand_lab::AicInputs::parse(&catalog, &vec![("ore".to_string(), 2), ("ore".to_string(), 5)]).expect("ok");
    assert_eq!(brand_lab::run_solver(&catalog, &aic).as_slice(), &[7]);
}

#[test]
fn shared_catalog_serves_two_scenarios() {
    let catalog = two_scenario_lab::Catalog::build();
    let item = catalog.item_id("ore").expect("known item");
    assert_eq!(catalog.item_key(item), Some("ore"));
    for _ in 0..2 {
        let aic = two_scenario_lab::AicInputs::parse(&catalog, &["ingot"]).expect("valid scenario");
        two_scenario_lab::use_item_with_aic(&catalog, &aic, item);
        let solved = two_scenario_lab::run_two_stage(&catalog, &aic).expect("scenario should solve");
        let report = two_scenario_lab::build_report(&catalog, &aic, &solved).expect("report should render");
        assert_eq!(report, "report item=ingot");
    }
    assert_eq!(
        two_scenario_lab::AicInputs::parse(&catalog, &[]).err(),
        Some(two_scenario_lab::ParseError::NoOutpost)
    );
    assert_eq!(
        two_scenario_lab::AicInputs::parse(&catalog, &["gold"]).err(),
        Some(two_scenario_lab::ParseError::UnknownItem("gold".to_string()))
    );
}

#[test]
fn conversion_reports_the_first_problem() {
    // The first refused recipe wins over later ones and over missing data.
    let recipes = vec![
        recipe("Refining Unit", 2, vec![st("Ferrium Ore", 1)], vec![st("Ferrium", 0)]),
        recipe("Refining Unit", 2, vec![st("Ferrium Ore", -1)], vec![st("Ferrium", 1)]),
    ];
    match convert_recipes(&recipes, &vec![], "recipe", "facility_power.toml") {
        Err(ConvertError::Schema { path, message }) => {
            assert_eq!(path, "recipe");
            assert_eq!(message, "recipe product count for item `Ferrium` must be >= 1, got 0");
        }
        other => panic!("unexpected: {other:?}"),
    }
    // Without refused recipes, the least untranslated item name is reported.
    let recipes = vec![recipe("Refining Unit", 2, vec![st("Zeta Thing", 1)], vec![st("Alpha Thing", 1)])];
    let power = vec![("Refining Unit".to_string(), 5i64)];
    match convert_recipes(&recipes, &power, "recipe", "facility_power.toml") {
        Err(ConvertError::MissingI18n { kind, key }) => {
            assert_eq!(kind, "item");
            assert_eq!(key, "Alpha Thing");
        }
        other => panic!("unexpected: {other:?}"),
    }
    // Then the least refused facility, with what it is refused for.
    let recipes = vec![
        recipe("Shredding Unit", 2, vec![st("Ferrium", 1)], vec![st("Ferrium Powder", 1)]),
        recipe("Refining Unit", 2, vec![st("Ferrium Ore", 1)], vec![st("Ferrium", 1)]),
    ];
    let power = vec![("Refining Unit".to_string(), 0i64)];
    match convert_recipes(&recipes, &power, "recipe", "facility_power.toml") {
        Err(ConvertError::Schema { path, message }) => {
            assert_eq!(path, "facility_power.toml");
            assert_eq!(message, "facility_power `Refining Unit` must be >= 1, got 0");
        }
        other => panic!("unexpected: {other:?}"),
    }
}
