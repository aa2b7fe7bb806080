use end_planner::aic::{
    AicBuildError, AicInputs, ItemNonZeroU32Map, ItemU32Map, OutpostInput, PowerConfig, Region,
};
use end_planner::catalog::{Catalog, ItemDef, ItemId, ThermalBankDef};
use end_planner::text::{DisplayName, Key};

fn key(value: &str) -> Key {
    Key::try_from(value).expect("valid key")
}

fn name(value: &str) -> DisplayName {
    DisplayName::try_from(value).expect("valid display name")
}

fn sample_catalog() -> (Catalog, ItemId, ItemId) {
    let mut builder = Catalog::builder();
    let a = builder
        .add_item(ItemDef { key: key("a"), en: name("A"), zh: name("A"), is_fluid: false })
        .expect("item a should be insertable");
    let b = builder
        .add_item(ItemDef { key: key("b"), en: name("B"), zh: name("B"), is_fluid: false })
        .expect("item b should be insertable");
    builder
        .add_thermal_bank(ThermalBankDef {
            key: key("thermal-bank"),
            en: name("Thermal Bank"),
            zh: name("Thermal Bank"),
        })
        .expect("thermal bank should be insertable");
    (builder.build().expect("catalog should build"), a, b)
}

fn item_u32_map_keeps_unique_keys_body() {
    let (_, item, _) = sample_catalog();
    let mut map = ItemU32Map::new();

    assert_eq!(map.insert(item, 10), None);
    assert_eq!(map.insert(item, 20), Some(10));
    assert_eq!(map.len(), 1);
    assert_eq!(map.get(item), Some(&20));
}

fn item_u32_map_from_vec_body() {
    let (_, a, b) = sample_catalog();
    let map = ItemU32Map::from_pairs(vec![(a, 1), (b, 3), (a, 2)]);

    assert_eq!(map.len(), 2);
    assert_eq!(map.get(a), Some(&2));
    assert_eq!(map.get(b), Some(&3));
}

fn item_non_zero_u32_map_from_vec_body() {
    let (_, a, b) = sample_catalog();
    let map = ItemNonZeroU32Map::from_pairs(vec![(a, 1), (b, 3), (a, 2)]);

    assert_eq!(map.len(), 2);
    assert_eq!(map.get(a), Some(&2));
    assert_eq!(map.get(b), Some(&3));
}

fn aic_parse_rejects_duplicate_outpost_keys_body() {
    let (_, _, b) = sample_catalog();
    let camp = key("Camp");
    let mut builder = AicInputs::builder(
        PowerConfig::default(),
        ItemNonZeroU32Map::from_pairs(vec![(b, 1)]),
        ItemNonZeroU32Map::default(),
    );

    builder
        .add_outpost(OutpostInput {
            key: camp.clone(),
            en: Some(name("Camp")),
            zh: Some(name("Camp_zh")),
            money_cap_per_hour: 1,
            prices: ItemU32Map::from_pairs(vec![(b, 1)]),
        })
        .expect("first outpost insert should succeed");
    let err = builder
        .add_outpost(OutpostInput {
            key: camp.clone(),
            en: Some(name("Camp2")),
            zh: Some(name("Camp2_zh")),
            money_cap_per_hour: 2,
            prices: ItemU32Map::from_pairs(vec![(b, 2)]),
        })
        .expect_err("duplicate outpost key should fail");

    assert!(
        matches!(err, AicBuildError::DuplicateOutpostKey { ref key } if key == &camp),
        "unexpected error: {err:?}"
    );
}

#[test]
fn aic_input_item_u32_map_keeps_unique_keys() {
    item_u32_map_keeps_unique_keys_body();
}

#[test]
fn tests_item_u32_map_keeps_unique_keys() {
    item_u32_map_keeps_unique_keys_body();
}

#[test]
fn aic_input_item_u32_map_from_vec_uses_last_value_for_duplicates() {
    item_u32_map_from_vec_body();
}

#[test]
fn tests_item_u32_map_from_vec_uses_last_value_for_duplicates() {
    item_u32_map_from_vec_body();
}

#[test]
fn aic_input_item_non_zero_u32_map_from_vec_uses_last_value_for_duplicates() {
    item_non_zero_u32_map_from_vec_body();
}

#[test]
fn tests_item_non_zero_u32_map_from_vec_uses_last_value_for_duplicates() {
    item_non_zero_u32_map_from_vec_body();
}

#[test]
fn aic_input_aic_parse_rejects_duplicate_outpost_keys() {
    aic_parse_rejects_duplicate_outpost_keys_body();
}

#[test]
fn tests_aic_parse_rejects_duplicate_outpost_keys() {
    aic_parse_rejects_duplicate_outpost_keys_body();
}

#[test]
fn aic_inputs_parse_keeps_outposts_and_defaults() {
    let (_, a, b) = sample_catalog();
    let outposts = vec![
        OutpostInput {
            key: key("North"),
            en: None,
            zh: None,
            money_cap_per_hour: 60,
            prices: ItemU32Map::from_pairs(vec![(a, 5)]),
        },
        OutpostInput {
            key: key("South"),
            en: Some(name("South")),
            zh: None,
            money_cap_per_hour: 0,
            prices: ItemU32Map::from_pairs(vec![(b, 7)]),
        },
    ];
    let aic = AicInputs::parse(
        PowerConfig::Disabled,
        ItemNonZeroU32Map::from_pairs(vec![(a, 3)]),
        ItemNonZeroU32Map::new(),
        outposts,
    )
    .expect("distinct keys");
    assert_eq!(aic.region(), Region::FourthValley);
    assert_eq!(aic.power_config(), PowerConfig::Disabled);
    assert_eq!(aic.outposts().len(), 2);
    let ids = aic.outpost_ids();
    assert_eq!(ids.len(), 2);
    assert_eq!(aic.outpost(ids[1]).expect("south").key.as_str(), "South");
    assert_eq!(aic.supply_per_min().get(a), Some(&3));
    assert!(aic.external_consumption_per_min().is_empty());
}

#[test]
fn aic_inputs_parse_reports_repeated_key() {
    let (_, a, _) = sample_catalog();
    let mk = |k: &str| OutpostInput {
        key: key(k),
        en: None,
        zh: None,
        money_cap_per_hour: 1,
        prices: ItemU32Map::from_pairs(vec![(a, 1)]),
    };
    let err = AicInputs::parse(
        PowerConfig::default(),
        ItemNonZeroU32Map::new(),
        ItemNonZeroU32Map::new(),
        vec![mk("X"), mk("Y"), mk("X")],
    )
    .expect_err("repeated key");
    assert_eq!(err.message(), "Duplicate outpost key: X");
}

#[test]
fn builder_region_is_kept() {
    let builder = AicInputs::builder(PowerConfig::default(), ItemNonZeroU32Map::new(), ItemNonZeroU32Map::new())
        .region(Region::Wuling);
    let aic = builder.build();
    assert_eq!(aic.region(), Region::Wuling);
    assert_eq!(Region::Wuling.as_key(), "wuling");
    assert_eq!(Region::FourthValley.as_key(), "fourth_valley");
    assert_eq!(
        PowerConfig::default(),
        PowerConfig::Enabled { external_production_w: 200, external_consumption_w: 0 }
    );
}

#[test]
fn item_u32_map_iter_keeps_insertion_order() {
    let (_, a, b) = sample_catalog();
    let mut map = ItemU32Map::new();
    map.insert(b, 9);
    map.insert(a, 4);
    map.insert(b, 1);
    assert_eq!(map.iter(), vec![(b, 1), (a, 4)]);
}
