use end_planner::aic::{AicInputs, ItemNonZeroU32Map, ItemU32Map, OutpostInput, PowerConfig};
use end_planner::catalog::{
    Catalog, FacilityDef, FacilityRegions, ItemDef, ItemId, RecipeId, Stack, ThermalBankDef,
};
use end_planner::logistics::{LogisticsNode, LogisticsNodeId, LogisticsNodeSite};
use end_planner::plan::FacilityMachineCount;
use end_planner::report::{
    describe_logistics_site, facility_display_name, format_machine_ranges, format_recipe_label,
    item_display_name, outpost_display_name, render_machine_range, t, with_machine_ordinals, Ansi,
    Lang, ReportError,
};
use end_planner::text::{DisplayName, Key};
use end_planner::web;

fn key(value: &str) -> Key {
    Key::try_from(value).expect("valid key")
}

fn name(value: &str) -> DisplayName {
    DisplayName::try_from(value).expect("valid display name")
}

fn sample() -> (Catalog, AicInputs, ItemId, ItemId, RecipeId) {
    let mut b = Catalog::builder();
    let ore = b.add_item(ItemDef { key: key("Ore"), en: name("Ore"), zh: name("Ore_zh"), is_fluid: false }).expect("ore");
    let ingot = b
        .add_item(ItemDef { key: key("Ingot"), en: name("Ingot"), zh: name("Ingot_zh"), is_fluid: false })
        .expect("ingot");
    let smelter = b
        .add_facility(FacilityDef {
            key: key("Smelter"),
            power_w: 10,
            en: name("Smelter"),
            zh: name("Smelter_zh"),
            regions: FacilityRegions::All,
        })
        .expect("smelter");
    b
        .add_thermal_bank(ThermalBankDef { key: key("Thermal Bank"), en: name("Thermal Bank"), zh: name("TB_zh") })
        .expect("bank");
    let r = b
        .push_recipe(
            smelter,
            2,
            vec![Stack { item: ore, count: 2 }, Stack { item: ingot, count: 1 }],
            vec![Stack { item: ingot, count: 3 }],
        )
        .expect("recipe");
    let catalog = b.build().expect("build");
    let aic = AicInputs::parse(
        PowerConfig::default(),
        ItemNonZeroU32Map::from_pairs(vec![(ore, 30)]),
        ItemNonZeroU32Map::new(),
        vec![OutpostInput {
            key: key("Camp"),
            en: None,
            zh: Some(name("营地")),
            money_cap_per_hour: 600,
            prices: ItemU32Map::from_pairs(vec![(ingot, 10)]),
        }],
    )
    .expect("aic");
    (catalog, aic, ore, ingot, r)
}

#[test]
fn recipe_labels_sort_each_side() {
    let (catalog, _, _, _, r) = sample();
    let recipe = catalog.recipe(r).expect("recipe");
    let label = format_recipe_label(
        Lang::En,
        &catalog,
        recipe.facility,
        &recipe.ingredients,
        &recipe.products,
        recipe.time_s,
    )
    .expect("label");
    assert_eq!(label, "[Smelter] Ingot x1 + Ore x2 -> Ingot x3 (t=2.000s)");
    let label_zh = format_recipe_label(
        Lang::Zh,
        &catalog,
        recipe.facility,
        &recipe.ingredients,
        &recipe.products,
        recipe.time_s,
    )
    .expect("label");
    assert_eq!(label_zh, "[Smelter_zh] Ingot_zh x1 + Ore_zh x2 -> Ingot_zh x3 (t=2.000s)");
}

#[test]
fn display_names_and_missing_ids() {
    let (catalog, aic, ore, _, _) = sample();
    assert_eq!(item_display_name(Lang::Zh, &catalog, ore), Ok("Ore_zh"));
    let facility = catalog.recipes()[0].facility;
    assert_eq!(facility_display_name(Lang::En, &catalog, facility), Ok("Smelter"));
    assert_eq!(outpost_display_name(Lang::En, &aic.outposts()[0]), "Camp");
    assert_eq!(outpost_display_name(Lang::Zh, &aic.outposts()[0]), "营地");
    assert_eq!(t(Lang::En, "中", "en"), "en");

    let mut other = Catalog::builder();
    other.add_item(ItemDef { key: key("a"), en: name("a"), zh: name("a"), is_fluid: false }).expect("a");
    other.add_item(ItemDef { key: key("b"), en: name("b"), zh: name("b"), is_fluid: false }).expect("b");
    let foreign = other.add_item(ItemDef { key: key("c"), en: name("c"), zh: name("c"), is_fluid: false }).expect("c");
    let err = item_display_name(Lang::En, &catalog, foreign).expect_err("missing");
    assert_eq!(err, ReportError::MissingItem(foreign));
    assert_eq!(err.message(), "missing item id 2");
}

#[test]
fn machine_ranges_collapse_consecutive_numbers() {
    assert_eq!(format_machine_ranges(&vec![1, 2, 3, 5, 7, 8]), "1-3,5,7-8");
    assert_eq!(format_machine_ranges(&vec![]), "");
    assert_eq!(render_machine_range(4, 4), "4");
    assert_eq!(render_machine_range(4, 6), "4-6");
    assert_eq!(with_machine_ordinals("Smelter r0", &vec![]), "Smelter r0");
    assert_eq!(with_machine_ordinals("Smelter r0", &vec![0, 1]), "Smelter r0 #0-1");
}

#[test]
fn colours_wrap_text_only_when_enabled() {
    let on = Ansi::new(true);
    let off = Ansi::new(false);
    assert_eq!(on.h("X"), "\x1b[1m\x1b[36mX\x1b[0m");
    assert_eq!(on.dim("X"), "\x1b[2mX\x1b[0m");
    assert_eq!(off.warn("X"), "X");
    assert_eq!(on.esc("nope"), "\x1b[0m");
}

#[test]
fn logistics_endpoints_are_described() {
    let (catalog, aic, ore, ingot, r) = sample();
    let e = describe_logistics_site(Lang::En, &aic, &catalog, &LogisticsNodeSite::ExternalSupply { item: ore })
        .expect("supply");
    assert_eq!(e.base, "External supply (Ore)");
    assert_eq!(e.machine_ordinal, None);
    let e = describe_logistics_site(Lang::Zh, &aic, &catalog, &LogisticsNodeSite::RecipeGroup { recipe_index: r })
        .expect("group");
    assert_eq!(e.base, "Smelter_zh r0");
    let o = aic.outpost_ids()[0];
    let e = describe_logistics_site(
        Lang::Zh,
        &aic,
        &catalog,
        &LogisticsNodeSite::OutpostSale { outpost_index: o, item: ingot },
    )
    .expect("sale");
    assert_eq!(e.base, "营地 出售(Ingot_zh)");
}

#[test]
fn web_lang_tags() {
    assert_eq!(web::Lang::parse(" ZH ").expect("zh"), web::Lang::Zh);
    assert_eq!(web::Lang::parse("en").expect("en"), web::Lang::En);
    let err = web::Lang::parse(" Fr ").expect_err("unknown");
    assert_eq!(err.message(), "Unknown lang `fr` (expected `zh` or `en`)");
    assert_eq!(web::Lang::Zh.tag(), "zh");
    assert_eq!(web::trim_lowercase("  MiXeD\t"), "mixed");
}

#[test]
fn web_catalog_items_are_sorted_by_key() {
    let (catalog, _, _, _, _) = sample();
    let items = web::catalog_items(&catalog);
    let keys: Vec<&str> = items.iter().map(|i| i.key.as_str()).collect();
    assert_eq!(keys, vec!["Ingot", "Ore"]);
    assert_eq!(items[1].zh, "Ore_zh");
}

#[test]
fn web_graph_nodes_and_edges() {
    let (catalog, aic, ore, ingot, r) = sample();
    let nodes: Vec<LogisticsNode> = (0..11)
        .map(|i| LogisticsNode {
            id: LogisticsNodeId::from_index(i),
            site: if i == 10 {
                LogisticsNodeSite::RecipeGroup { recipe_index: r }
            } else {
                LogisticsNodeSite::ExternalSupply { item: ore }
            },
        })
        .collect();
    let dtos = web::graph_nodes(web::Lang::En, &catalog, &aic, &nodes, &vec![(r, 4)], &vec![]).expect("nodes");
    assert_eq!(dtos.len(), 11);
    assert_eq!(dtos[0].id, "n0");
    assert_eq!(dtos[1].id, "n1");
    assert_eq!(dtos[2].id, "n10");
    assert_eq!(dtos[2].kind, "recipe_group");
    assert_eq!(dtos[2].label, "Smelter x4");
    assert_eq!(dtos[3].label, "External supply (Ore)");

    let edge = web::graph_edge(
        web::Lang::Zh,
        &catalog,
        &nodes,
        ingot,
        LogisticsNodeId::from_index(10),
        LogisticsNodeId::from_index(3),
    )
    .expect("edge");
    assert_eq!(edge.id, "Ingot:10:3");
    assert_eq!(edge.item_name, "Ingot_zh");
    assert_eq!(edge.source, "n10");
    assert_eq!(edge.target, "n3");
    let missing = web::graph_edge(
        web::Lang::Zh,
        &catalog,
        &nodes,
        ingot,
        LogisticsNodeId::from_index(10),
        LogisticsNodeId::from_index(99),
    )
    .expect_err("missing node");
    assert_eq!(missing.message(), "Missing logistics node 99 for item 1");

    let n = LogisticsNodeId::from_index;
    let labels = web::graph_edges(web::Lang::En, &catalog, &nodes, &vec![(ingot, n(10), n(3)), (ore, n(1), n(10))])
        .expect("edges");
    assert_eq!(labels.len(), 2);
    assert_eq!(labels[0].id, "Ingot:10:3");
    assert_eq!(labels[1].id, "Ore:1:10");
    assert_eq!(labels[1].item_name, "Ore");
    assert_eq!(labels[1].source, "n1");
    assert_eq!(labels[1].target, "n10");
    let first_bad = web::graph_edges(
        web::Lang::En,
        &catalog,
        &nodes,
        &vec![(ore, n(1), n(10)), (ingot, n(77), n(3)), (ore, n(1), n(88))],
    )
    .expect_err("second edge has no source node");
    assert_eq!(first_bad.message(), "Missing logistics node 77 for item 1");
    assert!(web::graph_edges(web::Lang::En, &catalog, &nodes, &vec![]).expect("no edges").is_empty());
}

#[test]
fn web_item_summaries_count_edges_and_nodes() {
    let (catalog, _, ore, ingot, _) = sample();
    let n = LogisticsNodeId::from_index;
    let edges = vec![(ore, n(0), n(2)), (ingot, n(2), n(3)), (ore, n(1), n(2)), (ore, n(0), n(2))];
    let rows = web::item_summaries(web::Lang::En, &catalog, &edges).expect("rows");
    assert_eq!(rows.len(), 2);
    assert_eq!(rows[0].item_key, "Ingot");
    assert_eq!(rows[0].edge_count, 1);
    assert_eq!(rows[0].node_ids, vec![2, 3]);
    assert_eq!(rows[1].item_key, "Ore");
    assert_eq!(rows[1].edge_count, 3);
    assert_eq!(rows[1].node_ids, vec![0, 1, 2]);
}

#[test]
fn web_facility_usage_totals_power() {
    let (catalog, _, _, _, r) = sample();
    let facility = catalog.recipe(r).expect("r").facility;
    let rows = web::facility_usage(web::Lang::Zh, &catalog, &vec![FacilityMachineCount { facility, machines: 3 }])
        .expect("usage");
    assert_eq!(rows[0].name, "Smelter_zh");
    assert_eq!(rows[0].total_power_w, 30);
}

#[test]
fn web_sales_sorted_by_outpost_then_item() {
    let keys = vec![
        web::SaleKey { outpost_key: "B".to_string(), item_key: "x".to_string(), index: 0 },
        web::SaleKey { outpost_key: "A".to_string(), item_key: "z".to_string(), index: 1 },
        web::SaleKey { outpost_key: "A".to_string(), item_key: "y".to_string(), index: 2 },
    ];
    let sorted = web::sort_sales(keys);
    assert_eq!(sorted.iter().map(|k| k.index).collect::<Vec<_>>(), vec![2, 1, 0]);
}

#[test]
fn bootstrap_returns_catalog_items() {
    let (catalog, _, _, _, _) = sample();
    let payload = web::bootstrap_payload(&catalog, "version = 2\n".to_string());
    assert_eq!(payload.default_aic_toml, "version = 2\n");
    assert!(!payload.catalog.items.is_empty(), "catalog items should not be empty");
    let keys: Vec<&str> = payload.catalog.items.iter().map(|i| i.key.as_str()).collect();
    assert_eq!(keys, vec!["Ingot", "Ore"]);
    assert_eq!(payload.catalog.items[1].zh, "Ore_zh");
}
