use end_planner::catalog::{
    Catalog, FacilityDef, FacilityId, FacilityRegions, ItemDef, ItemId, PowerRecipe,
    PowerRecipeId, RecipeId, Stack, ThermalBankDef,
};
use end_planner::logistics::{
    allocate_item_nodes, demand_site_key, key_to_site, supply_site_key, DemandSite, DenseNodeMap,
    LogisticsNodeId, LogisticsNodeKey, LogisticsNodeSite, LogisticsNodes, SupplySite,
};
use end_planner::plan::{
    distinct_items_ascending, stage2_choice, Stage2Choice, power_summary, recipe_net_deltas, sort_lines_desc, summarize_machines, thermal_banks_used,
    used_recipes_desc, FacilityMachineCount, PowerSummary, RecipeMachines, ThermalBankUsage,
};
use end_planner::text::{DisplayName, Key};

fn key(value: &str) -> Key {
    Key::try_from(value).expect("valid key")
}

fn name(value: &str) -> DisplayName {
    DisplayName::try_from(value).expect("valid display name")
}

struct Sample {
    catalog: Catalog,
    ore: ItemId,
    ingot: ItemId,
    smelter: FacilityId,
    press: FacilityId,
    r1: RecipeId,
    r2: RecipeId,
    p1: PowerRecipeId,
}

fn sample() -> Sample {
    let mut b = Catalog::builder();
    let ore = b.add_item(ItemDef { key: key("Ore"), en: name("Ore"), zh: name("矿"), is_fluid: false }).expect("ore");
    let ingot = b
        .add_item(ItemDef { key: key("Ingot"), en: name("Ingot"), zh: name("锭"), is_fluid: false })
        .expect("ingot");
    let smelter = b
        .add_facility(FacilityDef {
            key: key("Smelter"),
            power_w: 10,
            en: name("Smelter"),
            zh: name("熔炉"),
            regions: FacilityRegions::All,
        })
        .expect("smelter");
    let press = b
        .add_facility(FacilityDef {
            key: key("Press"),
            power_w: 5,
            en: name("Press"),
            zh: name("压机"),
            regions: FacilityRegions::All,
        })
        .expect("press");
    b
        .add_thermal_bank(ThermalBankDef { key: key("Thermal Bank"), en: name("Thermal Bank"), zh: name("热容池") })
        .expect("bank");
    let r1 = b
        .push_recipe(smelter, 2, vec![Stack { item: ore, count: 2 }], vec![Stack { item: ingot, count: 1 }])
        .expect("r1");
    let r2 = b
        .push_recipe(
            press,
            3,
            vec![Stack { item: ingot, count: 1 }, Stack { item: ore, count: 1 }],
            vec![Stack { item: ore, count: 3 }],
        )
        .expect("r2");
    let p1 = b
        .push_power_recipe(PowerRecipe { ingredient: Stack { item: ore, count: 1 }, power_w: 50, time_s: 10 })
        .expect("p1");
    Sample { catalog: b.build().expect("build"), ore, ingot, smelter, press, r1, r2, p1 }
}

#[test]
fn machines_are_summed_per_facility_largest_first() {
    let s = sample();
    let lines = vec![
        RecipeMachines { recipe: s.r1, facility: s.smelter, machines: 2 },
        RecipeMachines { recipe: s.r2, facility: s.press, machines: 5 },
        RecipeMachines { recipe: s.r1, facility: s.smelter, machines: 0 },
        RecipeMachines { recipe: s.r1, facility: s.smelter, machines: 4 },
    ];
    let (by_facility, total) = summarize_machines(&lines).expect("fits");
    assert_eq!(total, 11);
    assert_eq!(
        by_facility,
        vec![
            FacilityMachineCount { facility: s.smelter, machines: 6 },
            FacilityMachineCount { facility: s.press, machines: 5 },
        ]
    );
    let used = used_recipes_desc(&lines);
    assert_eq!(used.iter().map(|l| l.machines).collect::<Vec<_>>(), vec![5, 4, 2]);
}

#[test]
fn machine_total_overflow_is_reported() {
    let s = sample();
    let lines = vec![
        RecipeMachines { recipe: s.r1, facility: s.smelter, machines: u32::MAX },
        RecipeMachines { recipe: s.r2, facility: s.press, machines: 1 },
    ];
    assert!(summarize_machines(&lines).is_none());
}

#[test]
fn sorting_by_count_is_stable() {
    let s = sample();
    let lines = vec![
        FacilityMachineCount { facility: s.smelter, machines: 3 },
        FacilityMachineCount { facility: s.press, machines: 3 },
        FacilityMachineCount { facility: s.smelter, machines: 7 },
    ];
    let sorted = sort_lines_desc(lines);
    assert_eq!(
        sorted,
        vec![
            FacilityMachineCount { facility: s.smelter, machines: 7 },
            FacilityMachineCount { facility: s.smelter, machines: 3 },
            FacilityMachineCount { facility: s.press, machines: 3 },
        ]
    );
}

#[test]
fn thermal_banks_without_banks_are_dropped() {
    let s = sample();
    let lines = vec![
        ThermalBankUsage { power_recipe_index: s.p1, ingredient: s.ore, banks: 0, power_w: 50, duration_s: 10 },
        ThermalBankUsage { power_recipe_index: s.p1, ingredient: s.ore, banks: 2, power_w: 50, duration_s: 10 },
    ];
    let used = thermal_banks_used(&lines);
    assert_eq!(used.len(), 1);
    assert_eq!(used[0].banks, 2);
}

#[test]
fn power_summary_margin_and_shortfall() {
    let p = power_summary(200, 0, 50, 120, 250, 120).expect("enough power");
    assert_eq!(
        p,
        PowerSummary {
            external_production_w: 200,
            external_consumption_w: 0,
            thermal_generation_w: 50,
            machine_consumption_w: 120,
            total_gen_w: 250,
            total_use_w: 120,
            margin_w: 130,
        }
    );
    assert!(power_summary(0, 0, 0, 10, 5, 10).is_none());
}

#[test]
fn recipe_net_deltas_are_per_item_in_id_order() {
    let s = sample();
    let r2 = s.catalog.recipe(s.r2).expect("r2");
    // ore: -1 + 3 = 2; ingot: -1
    assert_eq!(recipe_net_deltas(r2), vec![(s.ore, 2i128), (s.ingot, -1i128)]);
    let r1 = s.catalog.recipe(s.r1).expect("r1");
    assert_eq!(recipe_net_deltas(r1), vec![(s.ore, -2i128), (s.ingot, 1i128)]);
}

#[test]
fn node_keys_group_recipe_sites() {
    let s = sample();
    assert_eq!(
        supply_site_key(&SupplySite::RecipeOutput { recipe_index: s.r1, item: s.ingot }),
        LogisticsNodeKey::RecipeGroup { recipe_index: s.r1 }
    );
    assert_eq!(
        demand_site_key(&DemandSite::RecipeInput { recipe_index: s.r1, item: s.ore }, s.ore),
        LogisticsNodeKey::RecipeGroup { recipe_index: s.r1 }
    );
    assert_eq!(
        demand_site_key(&DemandSite::WarehouseStockpile, s.ingot),
        LogisticsNodeKey::WarehouseStockpile { item: s.ingot }
    );
    assert_eq!(
        key_to_site(LogisticsNodeKey::ExternalSupply { item: s.ore }),
        LogisticsNodeSite::ExternalSupply { item: s.ore }
    );
}

#[test]
fn allocating_a_key_twice_gives_the_same_node() {
    let s = sample();
    let mut nodes = LogisticsNodes::new();
    let a = nodes.allocate(LogisticsNodeKey::ExternalSupply { item: s.ore });
    let b = nodes.allocate(LogisticsNodeKey::RecipeGroup { recipe_index: s.r1 });
    let c = nodes.allocate(LogisticsNodeKey::ExternalSupply { item: s.ore });
    assert_eq!(a, c);
    assert_ne!(a, b);
    assert_eq!(nodes.len(), 2);
    assert_eq!(b.as_u32(), 1);
    assert_eq!(nodes.nodes()[1].site, LogisticsNodeSite::RecipeGroup { recipe_index: s.r1 });
}

#[test]
fn item_nodes_share_recipe_groups_and_split_warehouses() {
    let s = sample();
    let mut graph = LogisticsNodes::new();
    let (sup, dem) = allocate_item_nodes(
        &mut graph,
        s.ore,
        &vec![SupplySite::ExternalSupply { item: s.ore }, SupplySite::RecipeOutput { recipe_index: s.r2, item: s.ore }],
        &vec![DemandSite::RecipeInput { recipe_index: s.r1, item: s.ore }, DemandSite::WarehouseStockpile],
    );
    let (sup2, dem2) = allocate_item_nodes(
        &mut graph,
        s.ingot,
        &vec![SupplySite::RecipeOutput { recipe_index: s.r1, item: s.ingot }],
        &vec![DemandSite::RecipeInput { recipe_index: s.r2, item: s.ingot }, DemandSite::WarehouseStockpile],
    );
    // r1 and r2 groups are shared between the two items.
    assert_eq!(sup2.get(0), dem.get(0));
    assert_eq!(dem2.get(0), sup.get(1));
    // Each item has its own warehouse node.
    assert_ne!(dem.get(1), dem2.get(1));
    assert_eq!(graph.len(), 5);
    let _ = s.smelter;
    let _ = s.press;
}

#[test]
fn dense_node_map_stores_by_slot() {
    let mut m = DenseNodeMap::new(3);
    assert_eq!(m.get(2).as_u32(), 0);
    m.insert(2, LogisticsNodeId::from_index(7));
    assert_eq!(m.get(2).as_u32(), 7);
    assert_eq!(m.get(0).as_u32(), 0);
}

#[test]
fn stage2_follows_the_weights_that_are_on() {
    assert_eq!(stage2_choice(false, false, false), Stage2Choice::KeepStage1);
    assert_eq!(stage2_choice(true, false, false), Stage2Choice::MinMachines);
    assert_eq!(stage2_choice(false, true, false), Stage2Choice::MaxPowerSlack);
    assert_eq!(stage2_choice(false, false, true), Stage2Choice::MaxMoneySlack);
    assert_eq!(stage2_choice(true, true, false), Stage2Choice::Weighted);
    assert_eq!(stage2_choice(true, true, true), Stage2Choice::Weighted);
}

#[test]
fn touched_items_are_listed_once_in_id_order() {
    let s = sample();
    let items = distinct_items_ascending(&vec![s.ingot, s.ore, s.ingot, s.ore]);
    assert_eq!(items, vec![s.ore, s.ingot]);
    assert!(distinct_items_ascending(&vec![]).is_empty());
}
