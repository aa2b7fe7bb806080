//! Turning parsed input files into a [`Catalog`] and [`AicInputs`]: keys are
//! resolved into ids, and every refusal is reported against the file, field
//! and entry it comes from.
//!
//! The files' values were checked one by one while they were read (see
//! [`crate::schema`]); what is checked here needs the whole file or the
//! catalog: unique keys, and keys that name existing items and facilities.

use vstd::prelude::*;

use std::ops::Range;

use crate::aic::{
    entries_insert, AicInputs, ItemNonZeroU32Map, ItemU32Map, OutpostInput, PowerConfig, Region,
};
use crate::catalog::{
    power_recipe_check, recipe_check, stack_list_check, Catalog, CatalogBuildError, CatalogBuilder, FacilityDef,
    FacilityRegions, ItemDef, PowerRecipe, Recipe, Stack, StackList, ThermalBankDef,
};
use crate::load_error::{
    error_view, first_problem, lemma_first_problem_none, lemma_first_problem_stays, ErrorView,
    recipe_error_field,
    copy_span, map_aic_build_error, map_item_build_error, map_machine_build_error, map_power_recipe_build_error,
    map_recipe_build_error, map_thermal_facility_build_error, LoadError, RecipeSpanContext,
};
use crate::strings::string_of;
use crate::text::{DisplayName, Key};

verus! {

// ---------------------------------------------------------------------------
// Parsed catalog files
// ---------------------------------------------------------------------------

/// One entry of `items.toml`.
#[derive(Debug)]
pub struct ItemDoc {
    pub key: Key,
    pub en: DisplayName,
    pub zh: DisplayName,
    pub fluid: bool,
    pub span: Option<Range<usize>>,
}

/// One `[[machines]]` entry of `facilities.toml`.
#[derive(Debug)]
pub struct MachineDoc {
    pub key: Key,
    pub power_w: u32,
    pub en: DisplayName,
    pub zh: DisplayName,
    /// Regions the machine is restricted to; none means every region.
    pub regions: Vec<Region>,
    pub span: Option<Range<usize>>,
}

/// The `[thermal_bank]` section of `facilities.toml`.
#[derive(Debug)]
pub struct ThermalBankDoc {
    pub key: Key,
    pub en: DisplayName,
    pub zh: DisplayName,
    pub span: Option<Range<usize>>,
}

/// A `{ item, count }` pair of `recipes.toml`.
#[derive(Debug)]
pub struct StackDoc {
    pub item: Key,
    pub count: u32,
}

/// One `[[recipes]]` entry of `recipes.toml`.
#[derive(Debug)]
pub struct RecipeDoc {
    pub facility: Key,
    pub time_s: u32,
    pub ingredients: Vec<StackDoc>,
    pub products: Vec<StackDoc>,
    pub spans: RecipeSpanContext,
}

/// One `[[power_recipes]]` entry of `recipes.toml`.
#[derive(Debug)]
pub struct PowerRecipeDoc {
    pub ingredient: StackDoc,
    pub power_w: u32,
    pub time_s: u32,
    pub span: Option<Range<usize>>,
}

/// The three catalog files, parsed, with the paths they were read from.
#[derive(Debug)]
pub struct CatalogDocs {
    pub items_path: String,
    pub items: Vec<ItemDoc>,
    pub facilities_path: String,
    pub machines: Vec<MachineDoc>,
    pub thermal_bank: ThermalBankDoc,
    pub recipes_path: String,
    pub recipes: Vec<RecipeDoc>,
    pub power_recipes: Vec<PowerRecipeDoc>,
}

// ---------------------------------------------------------------------------
// What makes the files a catalog
// ---------------------------------------------------------------------------

/// Some item has key `k`.
pub open spec fn has_item_key(items: Seq<ItemDoc>, k: Seq<char>) -> bool {
    exists|i: int| 0 <= i < items.len() && (#[trigger] items[i]).key@ == k
}

/// Some machine has key `k`.
pub open spec fn has_machine_key(machines: Seq<MachineDoc>, k: Seq<char>) -> bool {
    exists|i: int| 0 <= i < machines.len() && (#[trigger] machines[i]).key@ == k
}

/// No two items share a key.
pub open spec fn item_doc_keys_distinct(items: Seq<ItemDoc>) -> bool {
    forall|i: int, j: int| 0 <= i < j < items.len() ==> #[trigger] items[i].key@ != #[trigger] items[j].key@
}

/// No two machines share a key.
pub open spec fn machine_doc_keys_distinct(machines: Seq<MachineDoc>) -> bool {
    forall|i: int, j: int|
        0 <= i < j < machines.len() ==> #[trigger] machines[i].key@ != #[trigger] machines[j].key@
}

/// Each stack names an item, has a positive count, and no item occurs twice.
pub open spec fn stack_docs_ok(stacks: Seq<StackDoc>, items: Seq<ItemDoc>) -> bool {
    &&& forall|k: int|
        0 <= k < stacks.len() ==> has_item_key(items, (#[trigger] stacks[k]).item@) && stacks[k].count
            > 0
    &&& forall|a: int, b: int|
        0 <= a < b < stacks.len() ==> #[trigger] stacks[a].item@ != #[trigger] stacks[b].item@
}

/// A recipe names a machine, takes time, and has valid, non-empty lists.
pub open spec fn recipe_doc_ok(r: RecipeDoc, items: Seq<ItemDoc>, machines: Seq<MachineDoc>) -> bool {
    &&& has_machine_key(machines, r.facility@)
    &&& r.time_s > 0
    &&& r.ingredients@.len() > 0
    &&& r.products@.len() > 0
    &&& stack_docs_ok(r.ingredients@, items)
    &&& stack_docs_ok(r.products@, items)
}

/// A power recipe burns a positive count of an item, for a positive power
/// and time.
pub open spec fn power_recipe_doc_ok(p: PowerRecipeDoc, items: Seq<ItemDoc>) -> bool {
    &&& has_item_key(items, p.ingredient.item@)
    &&& p.ingredient.count > 0
    &&& p.power_w > 0
    &&& p.time_s > 0
}

/// The files describe a catalog: keys are unique (the thermal bank's
/// included), machine powers are positive, and every recipe and power
/// recipe is valid against the items and machines.
pub open spec fn catalog_docs_valid(d: CatalogDocs) -> bool {
    &&& item_doc_keys_distinct(d.items@)
    &&& machine_doc_keys_distinct(d.machines@)
    &&& forall|i: int|
        0 <= i < d.machines@.len() ==> (#[trigger] d.machines@[i]).key@ != d.thermal_bank.key@
            && d.machines@[i].power_w > 0
    &&& forall|i: int|
        0 <= i < d.recipes@.len() ==> recipe_doc_ok(#[trigger] d.recipes@[i], d.items@, d.machines@)
    &&& forall|i: int|
        0 <= i < d.power_recipes@.len() ==> power_recipe_doc_ok(
            #[trigger] d.power_recipes@[i],
            d.items@,
        )
}

/// The regions a machine is available in, from the regions its entry lists:
/// one region restricts it to that region; none, or both, leave it
/// available everywhere.
pub open spec fn regions_of(regions: Seq<Region>) -> FacilityRegions {
    let fv = regions.contains(Region::FourthValley);
    let wl = regions.contains(Region::Wuling);
    if fv && !wl {
        FacilityRegions::FourthValleyOnly
    } else if wl && !fv {
        FacilityRegions::WulingOnly
    } else {
        FacilityRegions::All
    }
}

/// Reads the region restriction of a machine entry (see [`regions_of`]).
pub fn facility_regions(regions: &Vec<Region>) -> (r: FacilityRegions)
    ensures
        r == regions_of(regions@),
{
    let mut fv = false;
    let mut wl = false;
    let mut i: usize = 0;
    while i < regions.len()
        invariant
            i <= regions@.len(),
            fv == exists|k: int| 0 <= k < i && regions@[k] == Region::FourthValley,
            wl == exists|k: int| 0 <= k < i && regions@[k] == Region::Wuling,
        decreases regions@.len() - i,
    {
        match regions[i] {
            Region::FourthValley => {
                fv = true;
            },
            Region::Wuling => {
                wl = true;
            },
        }
        i = i + 1;
    }
    if fv && !wl {
        FacilityRegions::FourthValleyOnly
    } else if wl && !fv {
        FacilityRegions::WulingOnly
    } else {
        FacilityRegions::All
    }
}

// ---------------------------------------------------------------------------
// How the catalog reflects the files
// ---------------------------------------------------------------------------

/// An item definition is the one an entry describes.
pub open spec fn item_matches(def: ItemDef, doc: ItemDoc) -> bool {
    &&& def.key@ == doc.key@
    &&& def.en@ == doc.en@
    &&& def.zh@ == doc.zh@
    &&& def.is_fluid == doc.fluid
}

/// A facility definition is the one a machine entry describes.
pub open spec fn machine_matches(def: FacilityDef, doc: MachineDoc) -> bool {
    &&& def.key@ == doc.key@
    &&& def.power_w == doc.power_w
    &&& def.en@ == doc.en@
    &&& def.zh@ == doc.zh@
    &&& def.regions == regions_of(doc.regions@)
}

/// A stack refers, by id, to the item its entry names by key.
pub open spec fn stack_matches(s: Stack, doc: StackDoc, items: Seq<ItemDoc>) -> bool {
    &&& s.item.raw() < items.len()
    &&& items[s.item.raw() as int].key@ == doc.item@
    &&& s.count == doc.count
}

/// Stacks refer to the items their entries name, in the same order.
pub open spec fn stacks_match(ss: Seq<Stack>, ds: Seq<StackDoc>, items: Seq<ItemDoc>) -> bool {
    &&& ss.len() == ds.len()
    &&& forall|k: int| 0 <= k < ss.len() ==> stack_matches(#[trigger] ss[k], ds[k], items)
}

/// A recipe is the one an entry describes, with keys resolved into ids.
pub open spec fn recipe_matches(
    r: Recipe,
    doc: RecipeDoc,
    items: Seq<ItemDoc>,
    machines: Seq<MachineDoc>,
) -> bool {
    &&& r.facility.raw() < machines.len()
    &&& machines[r.facility.raw() as int].key@ == doc.facility@
    &&& r.time_s == doc.time_s
    &&& stacks_match(r.ingredients@, doc.ingredients@, items)
    &&& stacks_match(r.products@, doc.products@, items)
}

/// A power recipe is the one an entry describes, with its key resolved.
pub open spec fn power_recipe_matches(p: PowerRecipe, doc: PowerRecipeDoc, items: Seq<ItemDoc>) -> bool {
    &&& stack_matches(p.ingredient, doc.ingredient, items)
    &&& p.power_w == doc.power_w
    &&& p.time_s == doc.time_s
}

/// The catalog holds exactly what the files describe, in file order.
pub open spec fn catalog_matches_docs(c: Catalog, d: CatalogDocs) -> bool {
    &&& c.spec_items().len() == d.items@.len()
    &&& forall|i: int| 0 <= i < d.items@.len() ==> item_matches(#[trigger] c.spec_items()[i], d.items@[i])
    &&& c.spec_facilities().len() == d.machines@.len()
    &&& forall|i: int|
        0 <= i < d.machines@.len() ==> machine_matches(#[trigger] c.spec_facilities()[i], d.machines@[i])
    &&& c.spec_bank().key@ == d.thermal_bank.key@
    &&& c.spec_recipes().len() == d.recipes@.len()
    &&& forall|i: int|
        0 <= i < d.recipes@.len() ==> recipe_matches(
            #[trigger] c.spec_recipes()[i],
            d.recipes@[i],
            d.items@,
            d.machines@,
        )
    &&& c.spec_power_recipes().len() == d.power_recipes@.len()
    &&& forall|i: int|
        0 <= i < d.power_recipes@.len() ==> power_recipe_matches(
            #[trigger] c.spec_power_recipes()[i],
            d.power_recipes@[i],
            d.items@,
        )
}

// ---------------------------------------------------------------------------
// What the catalog files are refused for
// ---------------------------------------------------------------------------

/// The problem of item entry `k`: its key repeats an earlier item's.
pub open spec fn item_problem(items: Seq<ItemDoc>, path: Seq<char>, k: int) -> Option<ErrorView> {
    if exists|j: int| 0 <= j < k && (#[trigger] items[j]).key@ == items[k].key@ {
        Some(ErrorView::DuplicateKey { path, kind: "item"@, key: items[k].key@, span: items[k].span })
    } else {
        None
    }
}

/// The first problem of `items.toml`, in file order.
pub open spec fn items_problem(items: Seq<ItemDoc>, path: Seq<char>) -> Option<ErrorView> {
    first_problem(items.len(), item_check(items, path))
}

/// The checks of the item entries, by position.
pub open spec fn item_check(items: Seq<ItemDoc>, path: Seq<char>) -> spec_fn(int) -> Option<ErrorView> {
    |k: int| item_problem(items, path, k)
}

/// The problem of machine entry `k`: its key repeats an earlier machine's,
/// or else its power is zero.
pub open spec fn machine_problem(machines: Seq<MachineDoc>, path: Seq<char>, k: int) -> Option<ErrorView> {
    if exists|j: int| 0 <= j < k && (#[trigger] machines[j]).key@ == machines[k].key@ {
        Some(ErrorView::DuplicateKey { path, kind: "facility"@, key: machines[k].key@, span: machines[k].span })
    } else if machines[k].power_w == 0 {
        Some(
            ErrorView::Schema {
                path,
                field: "machines"@,
                index: Some(k as usize),
                span: machines[k].span,
                message: "Facility power must be positive: "@ + machines[k].key@,
            },
        )
    } else {
        None
    }
}

/// The first problem of the machines of `facilities.toml`, in file order.
pub open spec fn machines_problem(machines: Seq<MachineDoc>, path: Seq<char>) -> Option<ErrorView> {
    first_problem(machines.len(), machine_check(machines, path))
}

/// The checks of the machine entries, by position.
pub open spec fn machine_check(machines: Seq<MachineDoc>, path: Seq<char>) -> spec_fn(int) -> Option<ErrorView> {
    |k: int| machine_problem(machines, path, k)
}

/// The problem of the thermal bank: a machine has its key.
pub open spec fn bank_problem(d: CatalogDocs) -> Option<ErrorView> {
    if has_machine_key(d.machines@, d.thermal_bank.key@) {
        Some(
            ErrorView::DuplicateKey {
                path: d.facilities_path@,
                kind: "facility"@,
                key: d.thermal_bank.key@,
                span: d.thermal_bank.span,
            },
        )
    } else {
        None
    }
}

/// The position of the item with key `k`.
pub open spec fn doc_item_index(items: Seq<ItemDoc>, k: Seq<char>) -> int {
    choose|i: int| 0 <= i < items.len() && (#[trigger] items[i]).key@ == k
}

/// What the catalog decides for a stack list whose items are all known,
/// with items named by their position: the first stack, in order, whose
/// count is zero or whose item occurred earlier in the list, decides.
pub open spec fn stack_docs_check(ds: Seq<StackDoc>, items: Seq<ItemDoc>, list: StackList) -> Result<
    (),
    CatalogBuildError,
>
    decreases ds.len(),
{
    if ds.len() == 0 {
        Ok(())
    } else {
        let prefix = ds.drop_last();
        match stack_docs_check(prefix, items, list) {
            Err(e) => Err(e),
            Ok(()) => {
                let s = ds.last();
                let id = doc_item_index(items, s.item@) as u32;
                if s.count == 0 {
                    Err(CatalogBuildError::RecipeStackCountMustBePositive { list, item_id: id })
                } else if exists|j: int| 0 <= j < prefix.len() && (#[trigger] prefix[j]).item@ == s.item@ {
                    Err(CatalogBuildError::DuplicateRecipeItem { list, item_id: id })
                } else {
                    Ok(())
                }
            },
        }
    }
}

/// What the catalog decides for a recipe whose facility and items are all
/// known.
pub open spec fn recipe_doc_check(r: RecipeDoc, items: Seq<ItemDoc>) -> Result<(), CatalogBuildError> {
    if r.time_s == 0 {
        Err(CatalogBuildError::RecipeTimeMustBePositive)
    } else if r.ingredients@.len() == 0 {
        Err(CatalogBuildError::RecipeIngredientsMustNotBeEmpty)
    } else if r.products@.len() == 0 {
        Err(CatalogBuildError::RecipeProductsMustNotBeEmpty)
    } else if stack_docs_check(r.ingredients@, items, StackList::Ingredients) is Err {
        stack_docs_check(r.ingredients@, items, StackList::Ingredients)
    } else {
        stack_docs_check(r.products@, items, StackList::Products)
    }
}

/// The span a recipe error about one of its lists points at: that list's,
/// when it is known, else the recipe's.
pub open spec fn list_span_of(list: Option<Range<usize>>, recipe: Option<Range<usize>>) -> Option<Range<usize>> {
    if list is Some {
        list
    } else {
        recipe
    }
}

/// How a refused recipe is reported: a schema error of its most specific
/// field, at that field's span when it is known and the recipe's otherwise.
pub open spec fn recipe_error_view(
    path: Seq<char>,
    index: usize,
    spans: RecipeSpanContext,
    source: CatalogBuildError,
) -> ErrorView {
    let field = recipe_error_field(source);
    ErrorView::Schema {
        path,
        field,
        index: Some(index),
        span: if field == "recipes.ingredients"@ && spans.ingredients is Some {
            spans.ingredients
        } else if field == "recipes.products"@ && spans.products is Some {
            spans.products
        } else {
            spans.recipe
        },
        message: source.spec_message(),
    }
}

/// The problem of stack `k` of a list: its item is unknown.
pub open spec fn stack_problem(
    ds: Seq<StackDoc>,
    items: Seq<ItemDoc>,
    path: Seq<char>,
    span: Option<Range<usize>>,
    k: int,
) -> Option<ErrorView> {
    if has_item_key(items, ds[k].item@) {
        None
    } else {
        Some(ErrorView::UnknownItem { path, key: ds[k].item@, span })
    }
}

/// The first unknown item of a stack list, in order.
pub open spec fn stacks_problem(
    ds: Seq<StackDoc>,
    items: Seq<ItemDoc>,
    path: Seq<char>,
    span: Option<Range<usize>>,
) -> Option<ErrorView> {
    first_problem(ds.len(), stack_check(ds, items, path, span))
}

/// The checks of the stacks of a list, by position.
pub open spec fn stack_check(
    ds: Seq<StackDoc>,
    items: Seq<ItemDoc>,
    path: Seq<char>,
    span: Option<Range<usize>>,
) -> spec_fn(int) -> Option<ErrorView> {
    |k: int| stack_problem(ds, items, path, span, k)
}

/// The problem of recipe entry `k`: an unknown facility, else the first
/// unknown ingredient, else the first unknown product, else what the
/// catalog refuses the recipe for.
pub open spec fn recipe_problem(
    recipes: Seq<RecipeDoc>,
    items: Seq<ItemDoc>,
    machines: Seq<MachineDoc>,
    path: Seq<char>,
    k: int,
) -> Option<ErrorView> {
    let r = recipes[k];
    let ing = stacks_problem(r.ingredients@, items, path, list_span_of(r.spans.ingredients, r.spans.recipe));
    let prod = stacks_problem(r.products@, items, path, list_span_of(r.spans.products, r.spans.recipe));
    if !has_machine_key(machines, r.facility@) {
        Some(ErrorView::UnknownFacility { path, key: r.facility@, span: r.spans.recipe })
    } else if ing is Some {
        ing
    } else if prod is Some {
        prod
    } else {
        match recipe_doc_check(r, items) {
            Ok(()) => None,
            Err(e) => Some(recipe_error_view(path, k as usize, r.spans, e)),
        }
    }
}

/// The first problem of the recipes of `recipes.toml`, in file order.
pub open spec fn recipes_problem(
    recipes: Seq<RecipeDoc>,
    items: Seq<ItemDoc>,
    machines: Seq<MachineDoc>,
    path: Seq<char>,
) -> Option<ErrorView> {
    first_problem(recipes.len(), recipe_check_at(recipes, items, machines, path))
}

/// The checks of the recipe entries, by position.
pub open spec fn recipe_check_at(
    recipes: Seq<RecipeDoc>,
    items: Seq<ItemDoc>,
    machines: Seq<MachineDoc>,
    path: Seq<char>,
) -> spec_fn(int) -> Option<ErrorView> {
    |k: int| recipe_problem(recipes, items, machines, path, k)
}

/// The problem of power recipe entry `k`: an unknown ingredient, else what
/// the catalog refuses it for.
pub open spec fn power_problem(powers: Seq<PowerRecipeDoc>, items: Seq<ItemDoc>, path: Seq<char>, k: int) -> Option<
    ErrorView,
> {
    let p = powers[k];
    if !has_item_key(items, p.ingredient.item@) {
        Some(ErrorView::UnknownItem { path, key: p.ingredient.item@, span: p.span })
    } else {
        let id = doc_item_index(items, p.ingredient.item@) as u32;
        let source = if p.ingredient.count == 0 {
            Some(CatalogBuildError::PowerRecipeIngredientCountMustBePositive { item_id: id })
        } else if p.power_w == 0 {
            Some(CatalogBuildError::PowerRecipePowerMustBePositive)
        } else if p.time_s == 0 {
            Some(CatalogBuildError::PowerRecipeTimeMustBePositive)
        } else {
            None
        };
        match source {
            Some(e) => Some(
                ErrorView::Schema {
                    path,
                    field: "power_recipes"@,
                    index: Some(k as usize),
                    span: p.span,
                    message: e.spec_message(),
                },
            ),
            None => None,
        }
    }
}

/// The first problem of the power recipes of `recipes.toml`, in file order.
pub open spec fn powers_problem(powers: Seq<PowerRecipeDoc>, items: Seq<ItemDoc>, path: Seq<char>) -> Option<
    ErrorView,
> {
    first_problem(powers.len(), power_check(powers, items, path))
}

/// The checks of the power recipe entries, by position.
pub open spec fn power_check(powers: Seq<PowerRecipeDoc>, items: Seq<ItemDoc>, path: Seq<char>) -> spec_fn(int) -> Option<
    ErrorView,
> {
    |k: int| power_problem(powers, items, path, k)
}

/// The first problem of the catalog files: items, then machines, the
/// thermal bank, recipes and power recipes, each in file order.
pub open spec fn catalog_problem(d: CatalogDocs) -> Option<ErrorView> {
    let items = items_problem(d.items@, d.items_path@);
    let machines = machines_problem(d.machines@, d.facilities_path@);
    let bank = bank_problem(d);
    let recipes = recipes_problem(d.recipes@, d.items@, d.machines@, d.recipes_path@);
    if items is Some {
        items
    } else if machines is Some {
        machines
    } else if bank is Some {
        bank
    } else if recipes is Some {
        recipes
    } else {
        powers_problem(d.power_recipes@, d.items@, d.recipes_path@)
    }
}

// ---------------------------------------------------------------------------
// Items and machines
// ---------------------------------------------------------------------------

fn load_items(builder: &mut CatalogBuilder, path: &str, items: &Vec<ItemDoc>) -> (r:
    Result<(), LoadError>)
    requires
        old(builder).spec_items().len() == 0,
        items@.len() < u32::MAX,
    ensures
        r is Ok <==> item_doc_keys_distinct(items@),
        r matches Err(e) ==> !(e is UnknownItem) && !(e is UnknownFacility),
        match r {
            Ok(()) => items_problem(items@, path@) is None,
            Err(e) => items_problem(items@, path@) == Some(error_view(e)),
        },
        r is Ok ==> final(builder).spec_items().len() == items@.len() && forall|i: int|
            0 <= i < items@.len() ==> item_matches(#[trigger] final(builder).spec_items()[i], items@[i]),
        final(builder).spec_facilities() == old(builder).spec_facilities(),
        final(builder).spec_recipes() == old(builder).spec_recipes(),
        final(builder).spec_power_recipes() == old(builder).spec_power_recipes(),
        final(builder).spec_bank_key() == old(builder).spec_bank_key(),
{
    let mut i: usize = 0;
    while i < items.len()
        invariant
            i <= items@.len() < u32::MAX,
            builder.spec_items().len() == i,
            forall|j: int| 0 <= j < i ==> item_matches(#[trigger] builder.spec_items()[j], items@[j]),
            item_doc_keys_distinct(items@.take(i as int)),
            first_problem(i as nat, item_check(items@, path@)) is None,
            builder.spec_facilities() == old(builder).spec_facilities(),
            builder.spec_recipes() == old(builder).spec_recipes(),
            builder.spec_power_recipes() == old(builder).spec_power_recipes(),
            builder.spec_bank_key() == old(builder).spec_bank_key(),
        decreases items@.len() - i,
    {
        let doc = &items[i];
        let def = ItemDef {
            key: doc.key.duplicate(),
            en: doc.en.clone(),
            zh: doc.zh.clone(),
            is_fluid: doc.fluid,
        };
        let ghost before = builder.spec_items();
        match builder.add_item(def) {
            Ok(_) => {
                proof {
                    let t = items@.take(i + 1);
                    assert forall|a: int, b: int| 0 <= a < b < t.len() implies #[trigger] t[a].key@
                        != #[trigger] t[b].key@ by {
                        assert(t[a] == items@[a] && t[b] == items@[b]);
                        if b < i {
                            assert(items@.take(i as int)[a] == items@[a]);
                            assert(items@.take(i as int)[b] == items@[b]);
                        } else {
                            assert(item_matches(before[a], items@[a]));
                        }
                    }
                    assert forall|j: int| 0 <= j < i implies (#[trigger] items@[j]).key@ != items@[i as int].key@ by {
                        assert(item_matches(before[j], items@[j]));
                    }
                    assert(item_check(items@, path@)(i as int) is None);
                }
            },
            Err(source) => {
                let e = map_item_build_error(path, i, copy_span(&doc.span), source);
                proof {
                    let j = choose|j: int| 0 <= j < before.len() && (#[trigger] before[j]).key@
                        == items@[i as int].key@;
                    assert(item_matches(before[j], items@[j]));
                    assert(items@[j].key@ == items@[i as int].key@);
                    reveal_strlit("item");
                    assert(item_check(items@, path@)(i as int) == Some(error_view(e)));
                    assert(first_problem((i + 1) as nat, item_check(items@, path@)) == Some(error_view(e)));
                    lemma_first_problem_stays((i + 1) as nat, items@.len(), item_check(items@, path@));
                }
                return Err(e);
            },
        }
        i = i + 1;
    }
    assert(items@.take(i as int) =~= items@);
    Ok(())
}

fn load_machines(
    builder: &mut CatalogBuilder,
    path: &str,
    machines: &Vec<MachineDoc>,
) -> (r: Result<(), LoadError>)
    requires
        old(builder).spec_facilities().len() == 0,
        old(builder).spec_bank_key() is None,
        machines@.len() < u32::MAX,
    ensures
        r is Ok <==> machine_doc_keys_distinct(machines@) && forall|i: int|
            0 <= i < machines@.len() ==> (#[trigger] machines@[i]).power_w > 0,
        r matches Err(e) ==> !(e is UnknownItem) && !(e is UnknownFacility),
        match r {
            Ok(()) => machines_problem(machines@, path@) is None,
            Err(e) => machines_problem(machines@, path@) == Some(error_view(e)),
        },
        r is Ok ==> final(builder).spec_facilities().len() == machines@.len() && forall|i: int|
            0 <= i < machines@.len() ==> machine_matches(
                #[trigger] final(builder).spec_facilities()[i],
                machines@[i],
            ),
        final(builder).spec_items() == old(builder).spec_items(),
        final(builder).spec_recipes() == old(builder).spec_recipes(),
        final(builder).spec_power_recipes() == old(builder).spec_power_recipes(),
        final(builder).spec_bank_key() == old(builder).spec_bank_key(),
{
    let mut i: usize = 0;
    while i < machines.len()
        invariant
            i <= machines@.len() < u32::MAX,
            builder.spec_facilities().len() == i,
            builder.spec_bank_key() is None,
            forall|j: int|
                0 <= j < i ==> machine_matches(#[trigger] builder.spec_facilities()[j], machines@[j]),
            machine_doc_keys_distinct(machines@.take(i as int)),
            forall|j: int| 0 <= j < i ==> (#[trigger] machines@[j]).power_w > 0,
            first_problem(i as nat, machine_check(machines@, path@)) is None,
            builder.spec_items() == old(builder).spec_items(),
            builder.spec_recipes() == old(builder).spec_recipes(),
            builder.spec_power_recipes() == old(builder).spec_power_recipes(),
            builder.spec_bank_key() == old(builder).spec_bank_key(),
        decreases machines@.len() - i,
    {
        let doc = &machines[i];
        let regions = facility_regions(&doc.regions);
        let def = FacilityDef {
            key: doc.key.duplicate(),
            power_w: doc.power_w,
            en: doc.en.clone(),
            zh: doc.zh.clone(),
            regions,
        };
        let ghost before = builder.spec_facilities();
        match builder.add_facility(def) {
            Ok(_) => {
                proof {
                    let t = machines@.take(i + 1);
                    assert forall|a: int, b: int| 0 <= a < b < t.len() implies #[trigger] t[a].key@
                        != #[trigger] t[b].key@ by {
                        assert(t[a] == machines@[a] && t[b] == machines@[b]);
                        if b < i {
                            assert(machines@.take(i as int)[a] == machines@[a]);
                            assert(machines@.take(i as int)[b] == machines@[b]);
                        } else {
                            assert(machine_matches(before[a], machines@[a]));
                        }
                    }
                    assert forall|j: int| 0 <= j < i implies (#[trigger] machines@[j]).key@ != machines@[i as int].key@ by {
                        assert(machine_matches(before[j], machines@[j]));
                    }
                    assert(machine_check(machines@, path@)(i as int) is None);
                }
            },
            Err(source) => {
                let e = map_machine_build_error(path, i, copy_span(&doc.span), source);
                proof {
                    reveal_strlit("facility");
                    reveal_strlit("machines");
                    if exists|j: int| 0 <= j < before.len() && (#[trigger] before[j]).key@
                        == machines@[i as int].key@ {
                        let j = choose|j: int| 0 <= j < before.len() && (#[trigger] before[j]).key@
                            == machines@[i as int].key@;
                        assert(machine_matches(before[j], machines@[j]));
                        assert(!machine_doc_keys_distinct(machines@));
                    } else {
                        assert forall|j: int| 0 <= j < i implies (#[trigger] machines@[j]).key@ != machines@[i as int].key@ by {
                            assert(machine_matches(before[j], machines@[j]));
                        }
                        assert(machines@[i as int].power_w == 0);
                    }
                    assert(machine_check(machines@, path@)(i as int) == Some(error_view(e)));
                    assert(first_problem((i + 1) as nat, machine_check(machines@, path@)) == Some(error_view(e)));
                    lemma_first_problem_stays((i + 1) as nat, machines@.len(), machine_check(machines@, path@));
                }
                return Err(e);
            },
        }
        i = i + 1;
    }
    assert(machines@.take(i as int) =~= machines@);
    Ok(())
}

// ---------------------------------------------------------------------------
// Recipes
// ---------------------------------------------------------------------------

/// The checks of the catalog on resolved stacks agree with the checks on the
/// keys they were resolved from.
proof fn lemma_stack_check_agrees(rs: Seq<Stack>, ds: Seq<StackDoc>, items: Seq<ItemDoc>, list: StackList)
    requires
        stacks_match(rs, ds, items),
        item_doc_keys_distinct(items),
    ensures
        (stack_list_check(rs, items.len(), list) is Ok) == stack_docs_ok(ds, items),
    decreases rs.len(),
{
    if rs.len() == 0 {
        return;
    }
    let prefix = rs.drop_last();
    let dprefix = ds.drop_last();
    assert forall|k: int| 0 <= k < prefix.len() implies stack_matches(#[trigger] prefix[k], dprefix[k], items) by {
        assert(prefix[k] == rs[k] && dprefix[k] == ds[k]);
        assert(stack_matches(rs[k], ds[k], items));
    }
    lemma_stack_check_agrees(prefix, dprefix, items, list);
    let n = rs.len() - 1;
    let s = rs.last();
    assert(stack_matches(rs[n], ds[n], items));
    if stack_list_check(prefix, items.len(), list) is Err {
        if stack_docs_ok(ds, items) {
            assert forall|k: int| 0 <= k < dprefix.len() implies has_item_key(items, (#[trigger] dprefix[k]).item@)
                && dprefix[k].count > 0 by {
                assert(dprefix[k] == ds[k]);
            }
            assert forall|a: int, b: int| 0 <= a < b < dprefix.len() implies #[trigger] dprefix[a].item@
                != #[trigger] dprefix[b].item@ by {
                assert(dprefix[a] == ds[a] && dprefix[b] == ds[b]);
            }
        }
    } else {
        if s.count == 0 {
        } else if exists|j: int| 0 <= j < prefix.len() && #[trigger] prefix[j].item == s.item {
            let j = choose|j: int| 0 <= j < prefix.len() && #[trigger] prefix[j].item == s.item;
            assert(prefix[j] == rs[j]);
            assert(stack_matches(rs[j], ds[j], items));
            assert(ds[j].item@ == ds[n].item@);
        } else {
            assert(has_item_key(items, ds[n].item@)) by {
                assert(items[s.item.raw() as int].key@ == ds[n].item@);
            }
            assert forall|k: int| 0 <= k < ds.len() implies has_item_key(items, (#[trigger] ds[k]).item@)
                && ds[k].count > 0 by {
                if k < n {
                    assert(dprefix[k] == ds[k]);
                }
            }
            assert forall|a: int, b: int| 0 <= a < b < ds.len() implies #[trigger] ds[a].item@
                != #[trigger] ds[b].item@ by {
                if b < n {
                    assert(dprefix[a] == ds[a] && dprefix[b] == ds[b]);
                } else {
                    assert(stack_matches(rs[a], ds[a], items));
                    assert(prefix[a] == rs[a]);
                    if ds[a].item@ == ds[b].item@ {
                        let ia = rs[a].item.raw() as int;
                        let ib = s.item.raw() as int;
                        if ia != ib {
                            if ia < ib {
                                assert(items[ia].key@ != items[ib].key@);
                            } else {
                                assert(items[ib].key@ != items[ia].key@);
                            }
                        }
                        rs[a].item.lemma_raw_injective(s.item);
                        assert(prefix[a].item == s.item);
                    }
                }
            }
        }
    }
}

proof fn lemma_doc_item_index(items: Seq<ItemDoc>, i: int, k: Seq<char>)
    requires
        item_doc_keys_distinct(items),
        0 <= i < items.len(),
        items[i].key@ == k,
    ensures
        doc_item_index(items, k) == i,
{
    let j = doc_item_index(items, k);
    assert(0 <= j < items.len() && items[j].key@ == k);
    if j < i {
        assert(items[j].key@ != items[i].key@);
    } else if i < j {
        assert(items[i].key@ != items[j].key@);
    }
}

/// On resolved stacks, the catalog's check of a list is the check of the
/// entries it was resolved from.
proof fn lemma_stack_check_same(rs: Seq<Stack>, ds: Seq<StackDoc>, items: Seq<ItemDoc>, list: StackList)
    requires
        stacks_match(rs, ds, items),
        item_doc_keys_distinct(items),
    ensures
        stack_list_check(rs, items.len(), list) == stack_docs_check(ds, items, list),
    decreases rs.len(),
{
    if rs.len() == 0 {
        return;
    }
    let prefix = rs.drop_last();
    let dprefix = ds.drop_last();
    assert forall|k: int| 0 <= k < prefix.len() implies stack_matches(#[trigger] prefix[k], dprefix[k], items) by {
        assert(prefix[k] == rs[k] && dprefix[k] == ds[k]);
        assert(stack_matches(rs[k], ds[k], items));
    }
    lemma_stack_check_same(prefix, dprefix, items, list);
    let n = rs.len() - 1;
    let s = rs.last();
    let d = ds.last();
    assert(stack_matches(rs[n], ds[n], items));
    lemma_doc_item_index(items, s.item.raw() as int, d.item@);
    if stack_list_check(prefix, items.len(), list) is Ok {
        let a = exists|j: int| 0 <= j < prefix.len() && #[trigger] prefix[j].item == s.item;
        let b = exists|j: int| 0 <= j < dprefix.len() && (#[trigger] dprefix[j]).item@ == d.item@;
        if a {
            let j = choose|j: int| 0 <= j < prefix.len() && #[trigger] prefix[j].item == s.item;
            assert(stack_matches(prefix[j], dprefix[j], items));
            assert(dprefix[j].item@ == d.item@);
        }
        if b {
            let j = choose|j: int| 0 <= j < dprefix.len() && (#[trigger] dprefix[j]).item@ == d.item@;
            assert(stack_matches(prefix[j], dprefix[j], items));
            lemma_doc_item_index(items, prefix[j].item.raw() as int, d.item@);
            prefix[j].item.lemma_raw_injective(s.item);
            assert(prefix[j].item == s.item);
        }
        assert(a == b);
    }
}

fn resolve_stacks(
    builder: &CatalogBuilder,
    path: &str,
    docs: &Vec<StackDoc>,
    span: &Option<Range<usize>>,
    Ghost(items): Ghost<Seq<ItemDoc>>,
) -> (r: Result<Vec<Stack>, LoadError>)
    requires
        builder.spec_items().len() == items.len(),
        forall|j: int| 0 <= j < items.len() ==> item_matches(#[trigger] builder.spec_items()[j], items[j]),
    ensures
        match r {
            Ok(v) => stacks_match(v@, docs@, items),
            Err(e) => e matches LoadError::UnknownItem { key, .. } && !has_item_key(items, key@)
                && exists|k: int| 0 <= k < docs@.len() && (#[trigger] docs@[k]).item@ == key@,
        },
        match r {
            Ok(_) => stacks_problem(docs@, items, path@, *span) is None,
            Err(e) => stacks_problem(docs@, items, path@, *span) == Some(error_view(e)),
        },
{
    let mut out: Vec<Stack> = Vec::new();
    let mut k: usize = 0;
    while k < docs.len()
        invariant
            k <= docs@.len(),
            builder.spec_items().len() == items.len(),
            forall|j: int| 0 <= j < items.len() ==> item_matches(#[trigger] builder.spec_items()[j], items[j]),
            out@.len() == k,
            forall|j: int| 0 <= j < k ==> stack_matches(#[trigger] out@[j], docs@[j], items),
            first_problem(k as nat, stack_check(docs@, items, path@, *span)) is None,
        decreases docs@.len() - k,
    {
        let d = &docs[k];
        match builder.item_id(d.item.as_str()) {
            Some(id) => {
                assert(item_matches(builder.spec_items()[id.raw() as int], items[id.raw() as int]));
                assert(has_item_key(items, d.item@));
                assert(stack_check(docs@, items, path@, *span)(k as int) is None);
                out.push(Stack { item: id, count: d.count });
            },
            None => {
                proof {
                    if has_item_key(items, d.item@) {
                        let j = choose|j: int| 0 <= j < items.len() && (#[trigger] items[j]).key@ == d.item@;
                        assert(item_matches(builder.spec_items()[j], items[j]));
                    }
                }
                let key = string_of(d.item.as_str());
                let e = LoadError::UnknownItem { path: string_of(path), key, span: copy_span(span) };
                proof {
                    assert(stack_check(docs@, items, path@, *span)(k as int) == Some(error_view(e)));
                    assert(first_problem((k + 1) as nat, stack_check(docs@, items, path@, *span)) == Some(error_view(e)));
                    lemma_first_problem_stays((k + 1) as nat, docs@.len(), stack_check(docs@, items, path@, *span));
                }
                return Err(e);
            },
        }
        k = k + 1;
    }
    Ok(out)
}

/// The span a recipe error about one of its lists points at: that list's,
/// when it is known, else the recipe's.
fn list_span(list: &Option<Range<usize>>, recipe: &Option<Range<usize>>) -> (r: Option<Range<usize>>)
    ensures
        r == (if list is Some { *list } else { *recipe }),
{
    if list.is_some() {
        copy_span(list)
    } else {
        copy_span(recipe)
    }
}

fn load_recipes(
    builder: &mut CatalogBuilder,
    path: &str,
    recipes: &Vec<RecipeDoc>,
    Ghost(items): Ghost<Seq<ItemDoc>>,
    Ghost(machines): Ghost<Seq<MachineDoc>>,
) -> (r: Result<(), LoadError>)
    requires
        old(builder).spec_items().len() == items.len(),
        forall|j: int| 0 <= j < items.len() ==> item_matches(#[trigger] old(builder).spec_items()[j], items[j]),
        old(builder).spec_facilities().len() == machines.len(),
        forall|j: int|
            0 <= j < machines.len() ==> machine_matches(#[trigger] old(builder).spec_facilities()[j], machines[j]),
        item_doc_keys_distinct(items),
        old(builder).spec_recipes().len() == 0,
        recipes@.len() < u32::MAX,
    ensures
        r is Ok <==> forall|i: int| 0 <= i < recipes@.len() ==> recipe_doc_ok(#[trigger] recipes@[i], items, machines),
        r matches Err(LoadError::UnknownItem { key, .. }) ==> !has_item_key(items, key@),
        r matches Err(LoadError::UnknownFacility { key, .. }) ==> !has_machine_key(machines, key@),
        match r {
            Ok(()) => recipes_problem(recipes@, items, machines, path@) is None,
            Err(e) => recipes_problem(recipes@, items, machines, path@) == Some(error_view(e)),
        },
        r is Ok ==> final(builder).spec_recipes().len() == recipes@.len() && forall|i: int|
            0 <= i < recipes@.len() ==> recipe_matches(#[trigger] final(builder).spec_recipes()[i], recipes@[i], items, machines),
        final(builder).spec_items() == old(builder).spec_items(),
        final(builder).spec_facilities() == old(builder).spec_facilities(),
        final(builder).spec_power_recipes() == old(builder).spec_power_recipes(),
        final(builder).spec_bank_key() == old(builder).spec_bank_key(),
{
    let mut i: usize = 0;
    while i < recipes.len()
        invariant
            i <= recipes@.len() < u32::MAX,
            builder.spec_items() == old(builder).spec_items(),
            builder.spec_facilities() == old(builder).spec_facilities(),
            builder.spec_power_recipes() == old(builder).spec_power_recipes(),
            builder.spec_bank_key() == old(builder).spec_bank_key(),
            builder.spec_items().len() == items.len(),
            forall|j: int| 0 <= j < items.len() ==> item_matches(#[trigger] builder.spec_items()[j], items[j]),
            builder.spec_facilities().len() == machines.len(),
            forall|j: int|
                0 <= j < machines.len() ==> machine_matches(#[trigger] builder.spec_facilities()[j], machines[j]),
            item_doc_keys_distinct(items),
            builder.spec_recipes().len() == i,
            forall|j: int| 0 <= j < i ==> recipe_doc_ok(#[trigger] recipes@[j], items, machines),
            forall|j: int|
                0 <= j < i ==> recipe_matches(#[trigger] builder.spec_recipes()[j], recipes@[j], items, machines),
            first_problem(i as nat, recipe_check_at(recipes@, items, machines, path@)) is None,
        decreases recipes@.len() - i,
    {
        let doc = &recipes[i];
        let ghost check = recipe_check_at(recipes@, items, machines, path@);
        let facility = match builder.facility_id(doc.facility.as_str()) {
            Some(f) => f,
            None => {
                proof {
                    if has_machine_key(machines, doc.facility@) {
                        let j = choose|j: int| 0 <= j < machines.len() && (#[trigger] machines[j]).key@ == doc.facility@;
                        assert(machine_matches(builder.spec_facilities()[j], machines[j]));
                    }
                    assert(!recipe_doc_ok(recipes@[i as int], items, machines));
                }
                let e = LoadError::UnknownFacility {
                    path: string_of(path),
                    key: string_of(doc.facility.as_str()),
                    span: copy_span(&doc.spans.recipe),
                };
                proof {
                    assert(check(i as int) == Some(error_view(e)));
                    assert(first_problem((i + 1) as nat, check) == Some(error_view(e)));
                    lemma_first_problem_stays((i + 1) as nat, recipes@.len(), check);
                }
                return Err(e);
            },
        };
        assert(machine_matches(builder.spec_facilities()[facility.raw() as int], machines[facility.raw() as int]));
        assert(has_machine_key(machines, doc.facility@));
        let ing_span = list_span(&doc.spans.ingredients, &doc.spans.recipe);
        let ingredients = match resolve_stacks(builder, path, &doc.ingredients, &ing_span, Ghost(items)) {
            Ok(v) => v,
            Err(e) => {
                proof {
                    let key = e->UnknownItem_key;
                    let k = choose|k: int| 0 <= k < doc.ingredients@.len() && (#[trigger] doc.ingredients@[k]).item@ == key@;
                    assert(!stack_docs_ok(doc.ingredients@, items));
                    assert(check(i as int) == Some(error_view(e)));
                    assert(first_problem((i + 1) as nat, check) == Some(error_view(e)));
                    lemma_first_problem_stays((i + 1) as nat, recipes@.len(), check);
                }
                return Err(e);
            },
        };
        let prod_span = list_span(&doc.spans.products, &doc.spans.recipe);
        let products = match resolve_stacks(builder, path, &doc.products, &prod_span, Ghost(items)) {
            Ok(v) => v,
            Err(e) => {
                proof {
                    let key = e->UnknownItem_key;
                    let k = choose|k: int| 0 <= k < doc.products@.len() && (#[trigger] doc.products@[k]).item@ == key@;
                    assert(!stack_docs_ok(doc.products@, items));
                    assert(check(i as int) == Some(error_view(e)));
                    assert(first_problem((i + 1) as nat, check) == Some(error_view(e)));
                    lemma_first_problem_stays((i + 1) as nat, recipes@.len(), check);
                }
                return Err(e);
            },
        };
        let ghost ing = ingredients@;
        let ghost prod = products@;
        proof {
            lemma_stack_check_agrees(ing, doc.ingredients@, items, StackList::Ingredients);
            lemma_stack_check_agrees(prod, doc.products@, items, StackList::Products);
            lemma_stack_check_same(ing, doc.ingredients@, items, StackList::Ingredients);
            lemma_stack_check_same(prod, doc.products@, items, StackList::Products);
            assert(recipe_check(facility, doc.time_s, ing, prod, items.len(), machines.len())
                == recipe_doc_check(recipes@[i as int], items));
        }
        let spans = RecipeSpanContext {
            recipe: copy_span(&doc.spans.recipe),
            ingredients: copy_span(&doc.spans.ingredients),
            products: copy_span(&doc.spans.products),
        };
        match builder.push_recipe(facility, doc.time_s, ingredients, products) {
            Ok(_) => {
                proof {
                    assert(recipe_doc_ok(recipes@[i as int], items, machines)) by {
                        let j = facility.raw() as int;
                        assert(machines[j].key@ == doc.facility@);
                    }
                    assert(check(i as int) is None);
                }
            },
            Err(source) => {
                let e = map_recipe_build_error(path, i, spans, source);
                proof {
                    assert(check(i as int) == Some(error_view(e)));
                    assert(first_problem((i + 1) as nat, check) == Some(error_view(e)));
                    lemma_first_problem_stays((i + 1) as nat, recipes@.len(), check);
                }
                return Err(e);
            },
        }
        i = i + 1;
    }
    Ok(())
}

fn load_power_recipes(
    builder: &mut CatalogBuilder,
    path: &str,
    power_recipes: &Vec<PowerRecipeDoc>,
    Ghost(items): Ghost<Seq<ItemDoc>>,
) -> (r: Result<(), LoadError>)
    requires
        old(builder).spec_items().len() == items.len(),
        forall|j: int| 0 <= j < items.len() ==> item_matches(#[trigger] old(builder).spec_items()[j], items[j]),
        old(builder).spec_power_recipes().len() == 0,
        power_recipes@.len() < u32::MAX,
        item_doc_keys_distinct(items),
    ensures
        r is Ok <==> forall|i: int| 0 <= i < power_recipes@.len() ==> power_recipe_doc_ok(#[trigger] power_recipes@[i], items),
        r matches Err(LoadError::UnknownItem { key, .. }) ==> !has_item_key(items, key@),
        r matches Err(e) ==> !(e is UnknownFacility),
        match r {
            Ok(()) => powers_problem(power_recipes@, items, path@) is None,
            Err(e) => powers_problem(power_recipes@, items, path@) == Some(error_view(e)),
        },
        r is Ok ==> final(builder).spec_power_recipes().len() == power_recipes@.len() && forall|i: int|
            0 <= i < power_recipes@.len() ==> power_recipe_matches(#[trigger] final(builder).spec_power_recipes()[i], power_recipes@[i], items),
        final(builder).spec_items() == old(builder).spec_items(),
        final(builder).spec_facilities() == old(builder).spec_facilities(),
        final(builder).spec_recipes() == old(builder).spec_recipes(),
        final(builder).spec_bank_key() == old(builder).spec_bank_key(),
{
    let mut i: usize = 0;
    while i < power_recipes.len()
        invariant
            i <= power_recipes@.len() < u32::MAX,
            builder.spec_items() == old(builder).spec_items(),
            builder.spec_facilities() == old(builder).spec_facilities(),
            builder.spec_recipes() == old(builder).spec_recipes(),
            builder.spec_bank_key() == old(builder).spec_bank_key(),
            builder.spec_items().len() == items.len(),
            forall|j: int| 0 <= j < items.len() ==> item_matches(#[trigger] builder.spec_items()[j], items[j]),
            builder.spec_power_recipes().len() == i,
            forall|j: int| 0 <= j < i ==> power_recipe_doc_ok(#[trigger] power_recipes@[j], items),
            forall|j: int|
                0 <= j < i ==> power_recipe_matches(#[trigger] builder.spec_power_recipes()[j], power_recipes@[j], items),
            item_doc_keys_distinct(items),
            first_problem(i as nat, power_check(power_recipes@, items, path@)) is None,
        decreases power_recipes@.len() - i,
    {
        let doc = &power_recipes[i];
        let ghost check = power_check(power_recipes@, items, path@);
        let item = match builder.item_id(doc.ingredient.item.as_str()) {
            Some(id) => id,
            None => {
                proof {
                    if has_item_key(items, doc.ingredient.item@) {
                        let j = choose|j: int| 0 <= j < items.len() && (#[trigger] items[j]).key@ == doc.ingredient.item@;
                        assert(item_matches(builder.spec_items()[j], items[j]));
                    }
                }
                let e = LoadError::UnknownItem {
                    path: string_of(path),
                    key: string_of(doc.ingredient.item.as_str()),
                    span: copy_span(&doc.span),
                };
                proof {
                    assert(check(i as int) == Some(error_view(e)));
                    assert(first_problem((i + 1) as nat, check) == Some(error_view(e)));
                    lemma_first_problem_stays((i + 1) as nat, power_recipes@.len(), check);
                }
                return Err(e);
            },
        };
        assert(item_matches(builder.spec_items()[item.raw() as int], items[item.raw() as int]));
        proof {
            lemma_doc_item_index(items, item.raw() as int, doc.ingredient.item@);
        }
        let recipe = PowerRecipe {
            ingredient: Stack { item, count: doc.ingredient.count },
            power_w: doc.power_w,
            time_s: doc.time_s,
        };
        match builder.push_power_recipe(recipe) {
            Ok(_) => {
                assert(check(i as int) is None);
            },
            Err(source) => {
                let e = map_power_recipe_build_error(path, i, copy_span(&doc.span), source);
                proof {
                    assert(check(i as int) == Some(error_view(e)));
                    assert(first_problem((i + 1) as nat, check) == Some(error_view(e)));
                    lemma_first_problem_stays((i + 1) as nat, power_recipes@.len(), check);
                }
                return Err(e);
            },
        }
        i = i + 1;
    }
    Ok(())
}

// ---------------------------------------------------------------------------
// The catalog
// ---------------------------------------------------------------------------

/// Builds the catalog that the three parsed files describe.
///
/// Succeeds exactly when the files are valid together (see
/// [`catalog_docs_valid`]), and the catalog then holds their entries in file
/// order. Otherwise the first problem found is reported, checking items,
/// then machines, the thermal bank, recipes and power recipes, each in file
/// order.
pub fn build_catalog(docs: &CatalogDocs) -> (r: Result<Catalog, LoadError>)
    requires
        docs.items@.len() < u32::MAX,
        docs.machines@.len() < u32::MAX,
        docs.recipes@.len() < u32::MAX,
        docs.power_recipes@.len() < u32::MAX,
    ensures
        r is Ok <==> catalog_docs_valid(*docs),
        r matches Ok(c) ==> catalog_matches_docs(c, *docs),
        r matches Err(LoadError::UnknownItem { key, .. }) ==> !has_item_key(docs.items@, key@),
        r matches Err(LoadError::UnknownFacility { key, .. }) ==> !has_machine_key(docs.machines@, key@),
        match r {
            Ok(_) => catalog_problem(*docs) is None,
            Err(e) => catalog_problem(*docs) == Some(error_view(e)),
        },
{
    let mut builder = CatalogBuilder::new();
    match load_items(&mut builder, docs.items_path.as_str(), &docs.items) {
        Ok(()) => {},
        Err(e) => return Err(e),
    }
    match load_machines(&mut builder, docs.facilities_path.as_str(), &docs.machines) {
        Ok(()) => {},
        Err(e) => return Err(e),
    }
    let bank = ThermalBankDef {
        key: docs.thermal_bank.key.duplicate(),
        en: docs.thermal_bank.en.clone(),
        zh: docs.thermal_bank.zh.clone(),
    };
    let ghost facs = builder.spec_facilities();
    match builder.add_thermal_bank(bank) {
        Ok(()) => {},
        Err(source) => {
            let e = map_thermal_facility_build_error(
                docs.facilities_path.as_str(),
                copy_span(&docs.thermal_bank.span),
                source,
            );
            proof {
                let j = choose|j: int| 0 <= j < facs.len() && (#[trigger] facs[j]).key@ == docs.thermal_bank.key@;
                assert(machine_matches(facs[j], docs.machines@[j]));
                reveal_strlit("facility");
                assert(bank_problem(*docs) == Some(error_view(e)));
            }
            return Err(e);
        },
    }
    proof {
        assert forall|i: int| 0 <= i < docs.machines@.len() implies (#[trigger] docs.machines@[i]).key@
            != docs.thermal_bank.key@ by {
            assert(machine_matches(facs[i], docs.machines@[i]));
        }
        assert(bank_problem(*docs) is None);
    }
    match load_recipes(
        &mut builder,
        docs.recipes_path.as_str(),
        &docs.recipes,
        Ghost(docs.items@),
        Ghost(docs.machines@),
    ) {
        Ok(()) => {},
        Err(e) => return Err(e),
    }
    match load_power_recipes(&mut builder, docs.recipes_path.as_str(), &docs.power_recipes, Ghost(docs.items@)) {
        Ok(()) => {},
        Err(e) => return Err(e),
    }
    Ok(builder.finish())
}

/// A catalog built from valid files finds each item of `items.toml` under
/// its key at the item's position in the file, and nowhere else.
pub proof fn law_built_catalog_keys(c: Catalog, d: CatalogDocs, i: int, j: int)
    requires
        catalog_matches_docs(c, d),
        catalog_docs_valid(d),
        0 <= i < d.items@.len(),
        0 <= j < c.spec_items().len(),
        c.spec_items()[j].key@ == d.items@[i].key@,
    ensures
        j == i,
        c.spec_items()[i].en@ == d.items@[i].en@,
        c.spec_items()[i].zh@ == d.items@[i].zh@,
{
    assert(item_matches(c.spec_items()[j], d.items@[j]));
    assert(item_matches(c.spec_items()[i], d.items@[i]));
    if j < i {
        assert(d.items@[j].key@ != d.items@[i].key@);
    } else if i < j {
        assert(d.items@[i].key@ != d.items@[j].key@);
    }
}

// ---------------------------------------------------------------------------
// Parsed scenario file
// ---------------------------------------------------------------------------

/// One `"item" = value` entry of a table of `aic.toml`.
#[derive(Debug)]
pub struct ItemValueDoc {
    pub item: Key,
    pub value: u32,
}

/// One `[[outposts]]` entry of `aic.toml`.
#[derive(Debug)]
pub struct OutpostDoc {
    pub key: Key,
    pub money_cap_per_hour: u32,
    pub en: Option<DisplayName>,
    pub zh: Option<DisplayName>,
    pub prices: Vec<ItemValueDoc>,
    pub prices_span: Option<Range<usize>>,
    pub span: Option<Range<usize>>,
}

/// `aic.toml`, parsed, with the path it was read from.
#[derive(Debug)]
pub struct AicDoc {
    pub path: String,
    pub region: Region,
    pub power: PowerConfig,
    /// The objective asks for power slack (`objective.max_power_slack` > 0).
    pub power_slack_requested: bool,
    pub supply_per_min: Vec<ItemValueDoc>,
    pub supply_span: Option<Range<usize>>,
    pub external_consumption_per_min: Vec<ItemValueDoc>,
    pub consumption_span: Option<Range<usize>>,
    pub outposts: Vec<OutpostDoc>,
}

/// The catalog has an item with key `k`.
pub open spec fn catalog_has_item(items: Seq<ItemDef>, k: Seq<char>) -> bool {
    exists|i: int| 0 <= i < items.len() && (#[trigger] items[i]).key@ == k
}

/// The index of the catalog item with key `k`.
pub open spec fn item_index(items: Seq<ItemDef>, k: Seq<char>) -> int {
    choose|i: int| 0 <= i < items.len() && (#[trigger] items[i]).key@ == k
}

/// Every entry names an item of the catalog.
pub open spec fn entries_known(entries: Seq<ItemValueDoc>, items: Seq<ItemDef>) -> bool {
    forall|k: int| 0 <= k < entries.len() ==> catalog_has_item(items, (#[trigger] entries[k]).item@)
}

/// The `(item id, value)` entries of a table: each entry, in file order, sets
/// the value of the item its key names.
pub open spec fn insert_all(entries: Seq<ItemValueDoc>, items: Seq<ItemDef>) -> Seq<(u32, u32)>
    decreases entries.len(),
{
    if entries.len() == 0 {
        Seq::empty()
    } else {
        let last = entries.last();
        entries_insert(
            insert_all(entries.drop_last(), items),
            item_index(items, last.item@) as u32,
            last.value,
        )
    }
}

/// No two outposts share a key.
pub open spec fn outpost_doc_keys_distinct(outposts: Seq<OutpostDoc>) -> bool {
    forall|i: int, j: int|
        0 <= i < j < outposts.len() ==> #[trigger] outposts[i].key@ != #[trigger] outposts[j].key@
}

/// The scenario file is valid against a catalog's items: power slack is
/// only asked for when power is modelled, every table names catalog items,
/// and outpost keys are unique.
pub open spec fn aic_doc_valid(d: AicDoc, items: Seq<ItemDef>) -> bool {
    &&& !(d.power is Disabled && d.power_slack_requested)
    &&& entries_known(d.supply_per_min@, items)
    &&& entries_known(d.external_consumption_per_min@, items)
    &&& forall|i: int| 0 <= i < d.outposts@.len() ==> entries_known((#[trigger] d.outposts@[i]).prices@, items)
    &&& outpost_doc_keys_distinct(d.outposts@)
}

/// The view of an optional display name.
pub open spec fn name_view(n: Option<DisplayName>) -> Option<Seq<char>> {
    match n {
        Some(d) => Some(d@),
        None => None,
    }
}

/// An outpost is the one an entry describes.
pub open spec fn outpost_matches(o: OutpostInput, doc: OutpostDoc, items: Seq<ItemDef>) -> bool {
    &&& o.key@ == doc.key@
    &&& name_view(o.en) == name_view(doc.en)
    &&& name_view(o.zh) == name_view(doc.zh)
    &&& o.money_cap_per_hour == doc.money_cap_per_hour
    &&& o.prices@ == insert_all(doc.prices@, items)
}

/// The scenario holds exactly what the file describes.
pub open spec fn aic_matches_doc(a: AicInputs, d: AicDoc, items: Seq<ItemDef>) -> bool {
    &&& a.spec_region() == d.region
    &&& a.spec_power() == d.power
    &&& a.spec_supply() == insert_all(d.supply_per_min@, items)
    &&& a.spec_consumption() == insert_all(d.external_consumption_per_min@, items)
    &&& a.spec_outposts().len() == d.outposts@.len()
    &&& forall|i: int|
        0 <= i < d.outposts@.len() ==> outpost_matches(#[trigger] a.spec_outposts()[i], d.outposts@[i], items)
}

/// The problem of entry `k` of a table: its item is not in the catalog.
pub open spec fn entry_problem(
    entries: Seq<ItemValueDoc>,
    items: Seq<ItemDef>,
    path: Seq<char>,
    span: Option<Range<usize>>,
    k: int,
) -> Option<ErrorView> {
    if catalog_has_item(items, entries[k].item@) {
        None
    } else {
        Some(ErrorView::UnknownItem { path, key: entries[k].item@, span })
    }
}

/// The checks of the entries of a table, by position.
pub open spec fn entry_check(
    entries: Seq<ItemValueDoc>,
    items: Seq<ItemDef>,
    path: Seq<char>,
    span: Option<Range<usize>>,
) -> spec_fn(int) -> Option<ErrorView> {
    |k: int| entry_problem(entries, items, path, span, k)
}

/// The first unknown item of a table, in file order, reported at the
/// table's span.
pub open spec fn entries_problem(
    entries: Seq<ItemValueDoc>,
    items: Seq<ItemDef>,
    path: Seq<char>,
    span: Option<Range<usize>>,
) -> Option<ErrorView> {
    first_problem(entries.len(), entry_check(entries, items, path, span))
}

/// The problem of outpost `k`: the first unknown item of its prices, else
/// a key that an earlier outpost has.
pub open spec fn outpost_problem(outposts: Seq<OutpostDoc>, items: Seq<ItemDef>, path: Seq<char>, k: int) -> Option<
    ErrorView,
> {
    let o = outposts[k];
    let prices = entries_problem(o.prices@, items, path, o.prices_span);
    if prices is Some {
        prices
    } else if exists|j: int| 0 <= j < k && (#[trigger] outposts[j]).key@ == o.key@ {
        Some(ErrorView::DuplicateKey { path, kind: "outpost"@, key: o.key@, span: o.span })
    } else {
        None
    }
}

/// The checks of the outposts, by position.
pub open spec fn outpost_check(outposts: Seq<OutpostDoc>, items: Seq<ItemDef>, path: Seq<char>) -> spec_fn(int) -> Option<
    ErrorView,
> {
    |k: int| outpost_problem(outposts, items, path, k)
}

/// The first problem of a scenario file against a catalog's items: power
/// slack asked for while power is not modelled, then the first unknown item
/// of the supply table, of the external consumption table, then the first
/// problem of the outposts in file order.
pub open spec fn aic_problem(d: AicDoc, items: Seq<ItemDef>) -> Option<ErrorView> {
    let supply = entries_problem(d.supply_per_min@, items, d.path@, d.supply_span);
    let consumption = entries_problem(d.external_consumption_per_min@, items, d.path@, d.consumption_span);
    if d.power is Disabled && d.power_slack_requested {
        Some(
            ErrorView::Schema {
                path: d.path@,
                field: "objective.max_power_slack"@,
                index: None,
                span: None,
                message: power_slack_message(),
            },
        )
    } else if supply is Some {
        supply
    } else if consumption is Some {
        consumption
    } else {
        first_problem(d.outposts@.len(), outpost_check(d.outposts@, items, d.path@))
    }
}

proof fn lemma_item_index(items: Seq<ItemDef>, i: int, k: Seq<char>)
    requires
        crate::catalog::item_keys_distinct(items),
        0 <= i < items.len(),
        items[i].key@ == k,
    ensures
        item_index(items, k) == i,
{
    let j = item_index(items, k);
    assert(0 <= j < items.len() && items[j].key@ == k);
    if j < i {
        assert(items[j].key@ != items[i].key@);
    } else if i < j {
        assert(items[i].key@ != items[j].key@);
    }
}

fn clone_name(n: &Option<DisplayName>) -> (r: Option<DisplayName>)
    ensures
        name_view(r) == name_view(*n),
{
    match n {
        Some(d) => Some(d.clone()),
        None => None,
    }
}

fn resolve_positive_entries(
    catalog: &Catalog,
    path: &str,
    entries: &Vec<ItemValueDoc>,
    span: &Option<Range<usize>>,
) -> (r: Result<ItemNonZeroU32Map, LoadError>)
    requires
        forall|k: int| 0 <= k < entries@.len() ==> (#[trigger] entries@[k]).value > 0,
    ensures
        r is Ok <==> entries_known(entries@, catalog.spec_items()),
        r matches Ok(m) ==> m@ == insert_all(entries@, catalog.spec_items()),
        r matches Err(e) ==> e matches LoadError::UnknownItem { key, .. } && !catalog_has_item(
            catalog.spec_items(),
            key@,
        ),
        match r {
            Ok(_) => entries_problem(entries@, catalog.spec_items(), path@, *span) is None,
            Err(e) => entries_problem(entries@, catalog.spec_items(), path@, *span) == Some(error_view(e)),
        },
{
    catalog.well_formed();
    let ghost items = catalog.spec_items();
    let mut m = ItemNonZeroU32Map::with_capacity(entries.len());
    let mut k: usize = 0;
    while k < entries.len()
        invariant
            k <= entries@.len(),
            items == catalog.spec_items(),
            crate::catalog::item_keys_distinct(items),
            forall|j: int| 0 <= j < entries@.len() ==> (#[trigger] entries@[j]).value > 0,
            entries_known(entries@.take(k as int), items),
            m@ == insert_all(entries@.take(k as int), items),
            first_problem(k as nat, entry_check(entries@, items, path@, *span)) is None,
        decreases entries@.len() - k,
    {
        let e = &entries[k];
        match catalog.item_id(e.item.as_str()) {
            Some(id) => {
                proof {
                    lemma_item_index(items, id.raw() as int, e.item@);
                    let t = entries@.take(k + 1);
                    assert(t.drop_last() =~= entries@.take(k as int));
                    assert(t.last() == entries@[k as int]);
                    assert forall|j: int| 0 <= j < t.len() implies catalog_has_item(items, (#[trigger] t[j]).item@) by {
                        if j < k {
                            assert(t[j] == entries@.take(k as int)[j]);
                        }
                    }
                }
                assert(entry_check(entries@, items, path@, *span)(k as int) is None);
                m.insert(id, e.value);
            },
            None => {
                let err = LoadError::UnknownItem {
                    path: string_of(path),
                    key: string_of(e.item.as_str()),
                    span: copy_span(span),
                };
                proof {
                    let check = entry_check(entries@, items, path@, *span);
                    assert(check(k as int) == Some(error_view(err)));
                    assert(first_problem((k + 1) as nat, check) == Some(error_view(err)));
                    lemma_first_problem_stays((k + 1) as nat, entries@.len(), check);
                }
                return Err(err);
            },
        }
        k = k + 1;
    }
    assert(entries@.take(k as int) =~= entries@);
    Ok(m)
}

fn resolve_entries(
    catalog: &Catalog,
    path: &str,
    entries: &Vec<ItemValueDoc>,
    span: &Option<Range<usize>>,
) -> (r: Result<ItemU32Map, LoadError>)
    ensures
        r is Ok <==> entries_known(entries@, catalog.spec_items()),
        r matches Ok(m) ==> m@ == insert_all(entries@, catalog.spec_items()),
        r matches Err(e) ==> e matches LoadError::UnknownItem { key, .. } && !catalog_has_item(
            catalog.spec_items(),
            key@,
        ),
        match r {
            Ok(_) => entries_problem(entries@, catalog.spec_items(), path@, *span) is None,
            Err(e) => entries_problem(entries@, catalog.spec_items(), path@, *span) == Some(error_view(e)),
        },
{
    catalog.well_formed();
    let ghost items = catalog.spec_items();
    let mut m = ItemU32Map::with_capacity(entries.len());
    let mut k: usize = 0;
    while k < entries.len()
        invariant
            k <= entries@.len(),
            items == catalog.spec_items(),
            crate::catalog::item_keys_distinct(items),
            entries_known(entries@.take(k as int), items),
            m@ == insert_all(entries@.take(k as int), items),
            first_problem(k as nat, entry_check(entries@, items, path@, *span)) is None,
        decreases entries@.len() - k,
    {
        let e = &entries[k];
        match catalog.item_id(e.item.as_str()) {
            Some(id) => {
                proof {
                    lemma_item_index(items, id.raw() as int, e.item@);
                    let t = entries@.take(k + 1);
                    assert(t.drop_last() =~= entries@.take(k as int));
                    assert(t.last() == entries@[k as int]);
                    assert forall|j: int| 0 <= j < t.len() implies catalog_has_item(items, (#[trigger] t[j]).item@) by {
                        if j < k {
                            assert(t[j] == entries@.take(k as int)[j]);
                        }
                    }
                }
                assert(entry_check(entries@, items, path@, *span)(k as int) is None);
                m.insert(id, e.value);
            },
            None => {
                let err = LoadError::UnknownItem {
                    path: string_of(path),
                    key: string_of(e.item.as_str()),
                    span: copy_span(span),
                };
                proof {
                    let check = entry_check(entries@, items, path@, *span);
                    assert(check(k as int) == Some(error_view(err)));
                    assert(first_problem((k + 1) as nat, check) == Some(error_view(err)));
                    lemma_first_problem_stays((k + 1) as nat, entries@.len(), check);
                }
                return Err(err);
            },
        }
        k = k + 1;
    }
    assert(entries@.take(k as int) =~= entries@);
    Ok(m)
}

/// The message that refuses power slack in the objective when power is
/// not modelled.
pub open spec fn power_slack_message() -> Seq<char> {
    "must be 0 when power.enabled = false"@
}

/// Builds the scenario inputs that a parsed `aic.toml` describes, resolving
/// item keys against the catalog.
///
/// Succeeds exactly when the file is valid against the catalog (see
/// [`aic_doc_valid`]), and the inputs then hold what the file says.
/// Otherwise the first problem is reported, checking the objective, then
/// supply, external consumption and outposts in file order.
pub fn resolve_aic(doc: &AicDoc, catalog: &Catalog) -> (r: Result<AicInputs, LoadError>)
    requires
        doc.outposts@.len() < u32::MAX,
        forall|k: int| 0 <= k < doc.supply_per_min@.len() ==> (#[trigger] doc.supply_per_min@[k]).value > 0,
        forall|k: int|
            0 <= k < doc.external_consumption_per_min@.len() ==> (
            #[trigger] doc.external_consumption_per_min@[k]).value > 0,
    ensures
        r is Ok <==> aic_doc_valid(*doc, catalog.spec_items()),
        r matches Ok(a) ==> aic_matches_doc(a, *doc, catalog.spec_items()),
        r matches Err(LoadError::UnknownItem { key, .. }) ==> !catalog_has_item(catalog.spec_items(), key@),
        r matches Err(LoadError::DuplicateKey { kind, .. }) ==> kind@ == "outpost"@
            && !outpost_doc_keys_distinct(doc.outposts@),
        r matches Err(LoadError::Schema { field, message, .. }) ==> field@ == "objective.max_power_slack"@
            && message@ == power_slack_message() && doc.power is Disabled && doc.power_slack_requested,
        !(r matches Err(LoadError::UnknownFacility { .. })),
        match r {
            Ok(_) => aic_problem(*doc, catalog.spec_items()) is None,
            Err(e) => aic_problem(*doc, catalog.spec_items()) == Some(error_view(e)),
        },
{
    let ghost items = catalog.spec_items();
    if doc.power_slack_requested {
        if let PowerConfig::Disabled = doc.power {
            proof {
                reveal_strlit("objective.max_power_slack");
                reveal_strlit("must be 0 when power.enabled = false");
            }
            let e = LoadError::Schema {
                path: string_of(doc.path.as_str()),
                field: "objective.max_power_slack",
                index: None,
                span: None,
                message: string_of("must be 0 when power.enabled = false"),
            };
            assert(aic_problem(*doc, items) == Some(error_view(e)));
            return Err(e);
        }
    }
    let supply = match resolve_positive_entries(catalog, doc.path.as_str(), &doc.supply_per_min, &doc.supply_span) {
        Ok(m) => m,
        Err(e) => return Err(e),
    };
    let consumption = match resolve_positive_entries(
        catalog,
        doc.path.as_str(),
        &doc.external_consumption_per_min,
        &doc.consumption_span,
    ) {
        Ok(m) => m,
        Err(e) => return Err(e),
    };
    let mut builder = AicInputs::builder(doc.power, supply, consumption).region(doc.region);
    let mut i: usize = 0;
    while i < doc.outposts.len()
        invariant
            i <= doc.outposts@.len() < u32::MAX,
            items == catalog.spec_items(),
            builder.spec_region() == doc.region,
            builder.spec_power() == doc.power,
            builder.spec_supply() == insert_all(doc.supply_per_min@, items),
            builder.spec_consumption() == insert_all(doc.external_consumption_per_min@, items),
            builder.spec_outposts().len() == i,
            forall|j: int| 0 <= j < i ==> outpost_matches(#[trigger] builder.spec_outposts()[j], doc.outposts@[j], items),
            forall|j: int| 0 <= j < i ==> entries_known((#[trigger] doc.outposts@[j]).prices@, items),
            outpost_doc_keys_distinct(doc.outposts@.take(i as int)),
            entries_problem(doc.supply_per_min@, items, doc.path@, doc.supply_span) is None,
            entries_problem(doc.external_consumption_per_min@, items, doc.path@, doc.consumption_span) is None,
            first_problem(i as nat, outpost_check(doc.outposts@, items, doc.path@)) is None,
            !(doc.power is Disabled && doc.power_slack_requested),
            entries_known(doc.supply_per_min@, items),
            entries_known(doc.external_consumption_per_min@, items),
        decreases doc.outposts@.len() - i,
    {
        let o = &doc.outposts[i];
        let ghost check = outpost_check(doc.outposts@, items, doc.path@);
        let prices = match resolve_entries(catalog, doc.path.as_str(), &o.prices, &o.prices_span) {
            Ok(m) => m,
            Err(e) => {
                proof {
                    assert(check(i as int) == Some(error_view(e)));
                    assert(first_problem((i + 1) as nat, check) == Some(error_view(e)));
                    lemma_first_problem_stays((i + 1) as nat, doc.outposts@.len(), check);
                }
                return Err(e);
            },
        };
        let input = OutpostInput {
            key: o.key.duplicate(),
            en: clone_name(&o.en),
            zh: clone_name(&o.zh),
            money_cap_per_hour: o.money_cap_per_hour,
            prices,
        };
        let ghost before = builder.spec_outposts();
        match builder.add_outpost(input) {
            Ok(_) => {
                proof {
                    let t = doc.outposts@.take(i + 1);
                    assert forall|a: int, b: int| 0 <= a < b < t.len() implies #[trigger] t[a].key@
                        != #[trigger] t[b].key@ by {
                        assert(t[a] == doc.outposts@[a] && t[b] == doc.outposts@[b]);
                        if b < i {
                            assert(doc.outposts@.take(i as int)[a] == doc.outposts@[a]);
                            assert(doc.outposts@.take(i as int)[b] == doc.outposts@[b]);
                        } else {
                            assert(outpost_matches(before[a], doc.outposts@[a], items));
                        }
                    }
                    assert forall|j: int| 0 <= j < i implies (#[trigger] doc.outposts@[j]).key@ != o.key@ by {
                        assert(outpost_matches(before[j], doc.outposts@[j], items));
                    }
                    assert(check(i as int) is None);
                }
            },
            Err(source) => {
                let e = map_aic_build_error(doc.path.as_str(), source, copy_span(&o.span));
                proof {
                    let j = choose|j: int| 0 <= j < before.len() && (#[trigger] before[j]).key@ == o.key@;
                    assert(outpost_matches(before[j], doc.outposts@[j], items));
                    assert(doc.outposts@[j].key@ == doc.outposts@[i as int].key@);
                    reveal_strlit("outpost");
                    assert(check(i as int) == Some(error_view(e)));
                    assert(first_problem((i + 1) as nat, check) == Some(error_view(e)));
                    lemma_first_problem_stays((i + 1) as nat, doc.outposts@.len(), check);
                }
                return Err(e);
            },
        }
        i = i + 1;
    }
    assert(doc.outposts@.take(i as int) =~= doc.outposts@);
    Ok(builder.build())
}

} // verus!
