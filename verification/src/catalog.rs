//! The catalog: items, machine facilities, the thermal bank, production
//! recipes and thermal-bank power recipes, with dense ids assigned in
//! insertion order.
//!
//! A catalog is only built through [`CatalogBuilder`], which checks every
//! cross-reference when it is added, so that every id stored in a catalog
//! indexes its tables.

use vstd::prelude::*;

use crate::aic::Region;
use crate::strings::{decimal, push_decimal, push_str, string_of};
use crate::text::{DisplayName, Key};

verus! {

/// Core power generation capacity in watts (a fixed game constant).
pub const CORE_POWER_W: u32 = 200;

/// Identifier of an item: its dense index in the catalog's item table.
#[derive(Debug, Clone, Copy, PartialEq, Eq, Structural, Hash, PartialOrd, Ord)]
pub struct ItemId {
    raw: u32,
}

/// Identifier of a machine facility: its dense index in the facility table.
#[derive(Debug, Clone, Copy, PartialEq, Eq, Structural, Hash, PartialOrd, Ord)]
pub struct FacilityId {
    raw: u32,
}

/// Identifier of a production recipe: its dense index in the recipe table.
#[derive(Debug, Clone, Copy, PartialEq, Eq, Structural, Hash, PartialOrd, Ord)]
pub struct RecipeId {
    raw: u32,
}

/// Identifier of a thermal-bank power recipe: its dense index in the power
/// recipe table.
#[derive(Debug, Clone, Copy, PartialEq, Eq, Structural, Hash, PartialOrd, Ord)]
pub struct PowerRecipeId {
    raw: u32,
}

impl ItemId {
    /// Two item ids are the same id exactly when their indices are equal.
    pub proof fn lemma_raw_injective(self, other: ItemId)
        ensures
            (self.raw() == other.raw()) == (self == other),
    {
    }

    /// The id's number.
    pub closed spec fn raw(self) -> u32 {
        self.raw
    }

    /// The underlying numeric representation.
    pub fn as_u32(self) -> (r: u32)
        ensures
            r == self.raw(),
    {
        self.raw
    }

    /// The zero-based dense index of this item in its catalog.
    pub fn index(self) -> (r: usize)
        ensures
            r == self.raw(),
    {
        self.raw as usize
    }

    pub(crate) fn from_index(index: usize) -> (r: ItemId)
        requires
            index <= u32::MAX,
        ensures
            r.raw() == index,
    {
        ItemId { raw: index as u32 }
    }
}

impl FacilityId {
    /// The id's number.
    pub closed spec fn raw(self) -> u32 {
        self.raw
    }

    /// The underlying numeric representation.
    pub fn as_u32(self) -> (r: u32)
        ensures
            r == self.raw(),
    {
        self.raw
    }

    /// The zero-based dense index of this facility in its catalog.
    pub fn index(self) -> (r: usize)
        ensures
            r == self.raw(),
    {
        self.raw as usize
    }

    pub(crate) fn from_index(index: usize) -> (r: FacilityId)
        requires
            index <= u32::MAX,
        ensures
            r.raw() == index,
    {
        FacilityId { raw: index as u32 }
    }
}

impl RecipeId {
    /// The id's number.
    pub closed spec fn raw(self) -> u32 {
        self.raw
    }

    /// The underlying numeric representation.
    pub fn as_u32(self) -> (r: u32)
        ensures
            r == self.raw(),
    {
        self.raw
    }

    /// The zero-based dense index of this recipe in its catalog.
    pub fn index(self) -> (r: usize)
        ensures
            r == self.raw(),
    {
        self.raw as usize
    }

    pub(crate) fn from_index(index: usize) -> (r: RecipeId)
        requires
            index <= u32::MAX,
        ensures
            r.raw() == index,
    {
        RecipeId { raw: index as u32 }
    }
}

impl PowerRecipeId {
    /// The id's number.
    pub closed spec fn raw(self) -> u32 {
        self.raw
    }

    /// The underlying numeric representation.
    pub fn as_u32(self) -> (r: u32)
        ensures
            r == self.raw(),
    {
        self.raw
    }

    /// The zero-based dense index of this power recipe in its catalog.
    pub fn index(self) -> (r: usize)
        ensures
            r == self.raw(),
    {
        self.raw as usize
    }

    pub(crate) fn from_index(index: usize) -> (r: PowerRecipeId)
        requires
            index <= u32::MAX,
        ensures
            r.raw() == index,
    {
        PowerRecipeId { raw: index as u32 }
    }
}

/// Which regions a machine facility can be built in.
#[derive(Debug, Clone, Copy, PartialEq, Eq, Structural)]
pub enum FacilityRegions {
    All,
    FourthValleyOnly,
    WulingOnly,
}

impl FacilityRegions {
    pub open spec fn spec_allows(self, region: Region) -> bool {
        match self {
            FacilityRegions::All => true,
            FacilityRegions::FourthValleyOnly => region == Region::FourthValley,
            FacilityRegions::WulingOnly => region == Region::Wuling,
        }
    }

    /// Whether a facility with these regions can be built in `region`.
    pub fn allows(self, region: Region) -> (b: bool)
        ensures
            b == self.spec_allows(region),
    {
        match self {
            FacilityRegions::All => true,
            FacilityRegions::FourthValleyOnly => region == Region::FourthValley,
            FacilityRegions::WulingOnly => region == Region::Wuling,
        }
    }
}

/// Item metadata and display texts.
#[derive(Debug)]
pub struct ItemDef {
    pub key: Key,
    pub en: DisplayName,
    pub zh: DisplayName,
    /// Fluids cannot be stored: their balance must be exactly zero.
    pub is_fluid: bool,
}

/// Machine facility metadata and display texts.
#[derive(Debug)]
pub struct FacilityDef {
    pub key: Key,
    /// Power draw of one machine in watts (must be positive).
    pub power_w: u32,
    pub en: DisplayName,
    pub zh: DisplayName,
    pub regions: FacilityRegions,
}

/// Thermal bank metadata and display texts.
#[derive(Debug)]
pub struct ThermalBankDef {
    pub key: Key,
    pub en: DisplayName,
    pub zh: DisplayName,
}

/// `(item, count)` pair used in recipes.
#[derive(Debug, Clone, Copy, PartialEq, Eq, Structural)]
pub struct Stack {
    pub item: ItemId,
    pub count: u32,
}

/// Production recipe definition.
#[derive(Debug)]
pub struct Recipe {
    pub facility: FacilityId,
    pub time_s: u32,
    pub ingredients: Vec<Stack>,
    pub products: Vec<Stack>,
}

/// Thermal-bank power recipe definition.
#[derive(Debug, Clone, Copy, PartialEq, Eq, Structural)]
pub struct PowerRecipe {
    pub ingredient: Stack,
    pub power_w: u32,
    pub time_s: u32,
}

/// The two stack lists of a recipe.
#[derive(Debug, Clone, Copy, PartialEq, Eq, Structural)]
pub enum StackList {
    Ingredients,
    Products,
}

impl StackList {
    /// The list's name as it appears in `recipes.toml`.
    pub fn as_str(self) -> (s: &'static str)
        ensures
            s@ == self.spec_name(),
    {
        proof {
            reveal_strlit("ingredients");
            reveal_strlit("products");
        }
        match self {
            StackList::Ingredients => "ingredients",
            StackList::Products => "products",
        }
    }

    pub open spec fn spec_name(self) -> Seq<char> {
        match self {
            StackList::Ingredients => "ingredients"@,
            StackList::Products => "products"@,
        }
    }
}

/// Errors returned when building a [`Catalog`].
#[derive(Debug)]
pub enum CatalogBuildError {
    DuplicateItemKey(Key),
    DuplicateFacilityKey(Key),
    FacilityPowerMustBePositive { key: Key },
    UnknownRecipeFacilityId(u32),
    RecipeTimeMustBePositive,
    RecipeIngredientsMustNotBeEmpty,
    RecipeProductsMustNotBeEmpty,
    RecipeStackCountMustBePositive { list: StackList, item_id: u32 },
    UnknownRecipeItemId { list: StackList, item_id: u32 },
    DuplicateRecipeItem { list: StackList, item_id: u32 },
    UnknownPowerRecipeIngredientItemId(u32),
    PowerRecipeIngredientCountMustBePositive { item_id: u32 },
    PowerRecipePowerMustBePositive,
    PowerRecipeTimeMustBePositive,
    MultipleThermalBanks,
    MissingThermalBank,
}

impl CatalogBuildError {
    /// The text of [`CatalogBuildError::message`].
    pub open spec fn spec_message(&self) -> Seq<char> {
        match self {
            CatalogBuildError::DuplicateItemKey(key) => "Duplicate item key: "@ + key@,
            CatalogBuildError::DuplicateFacilityKey(key) => "Duplicate facility key: "@ + key@,
            CatalogBuildError::FacilityPowerMustBePositive { key } =>
                "Facility power must be positive: "@ + key@,
            CatalogBuildError::UnknownRecipeFacilityId(id) => "Recipe references unknown facility id "@
                + decimal(*id as nat),
            CatalogBuildError::RecipeTimeMustBePositive => "Recipe time must be positive"@,
            CatalogBuildError::RecipeIngredientsMustNotBeEmpty => "Recipe ingredients must not be empty"@,
            CatalogBuildError::RecipeProductsMustNotBeEmpty => "Recipe products must not be empty"@,
            CatalogBuildError::RecipeStackCountMustBePositive { list, item_id } => "Recipe "@
                + list.spec_name() + " count must be positive for item id "@ + decimal(*item_id as nat),
            CatalogBuildError::UnknownRecipeItemId { list, item_id } => "Recipe "@ + list.spec_name()
                + " references unknown item id "@ + decimal(*item_id as nat),
            CatalogBuildError::DuplicateRecipeItem { list, item_id } => "Recipe "@ + list.spec_name()
                + " contains duplicate item id "@ + decimal(*item_id as nat),
            CatalogBuildError::UnknownPowerRecipeIngredientItemId(id) =>
                "Power recipe references unknown item id "@ + decimal(*id as nat),
            CatalogBuildError::PowerRecipeIngredientCountMustBePositive { item_id } =>
                "Power recipe ingredient count must be positive for item id "@ + decimal(*item_id as nat),
            CatalogBuildError::PowerRecipePowerMustBePositive => "Power recipe power must be positive"@,
            CatalogBuildError::PowerRecipeTimeMustBePositive => "Power recipe time must be positive"@,
            CatalogBuildError::MultipleThermalBanks => "Multiple thermal banks"@,
            CatalogBuildError::MissingThermalBank => "Missing thermal bank"@,
        }
    }

    /// The message that describes this error.
    pub fn message(&self) -> (s: String)
        ensures
            s@ == self.spec_message(),
    {
        let mut s = String::new();
        match self {
            CatalogBuildError::DuplicateItemKey(key) => {
                push_str(&mut s, "Duplicate item key: ");
                push_str(&mut s, key.as_str());
            },
            CatalogBuildError::DuplicateFacilityKey(key) => {
                push_str(&mut s, "Duplicate facility key: ");
                push_str(&mut s, key.as_str());
            },
            CatalogBuildError::FacilityPowerMustBePositive { key } => {
                push_str(&mut s, "Facility power must be positive: ");
                push_str(&mut s, key.as_str());
            },
            CatalogBuildError::UnknownRecipeFacilityId(id) => {
                push_str(&mut s, "Recipe references unknown facility id ");
                push_decimal(&mut s, *id as u64);
            },
            CatalogBuildError::RecipeTimeMustBePositive => {
                push_str(&mut s, "Recipe time must be positive");
            },
            CatalogBuildError::RecipeIngredientsMustNotBeEmpty => {
                push_str(&mut s, "Recipe ingredients must not be empty");
            },
            CatalogBuildError::RecipeProductsMustNotBeEmpty => {
                push_str(&mut s, "Recipe products must not be empty");
            },
            CatalogBuildError::RecipeStackCountMustBePositive { list, item_id } => {
                push_str(&mut s, "Recipe ");
                push_str(&mut s, list.as_str());
                push_str(&mut s, " count must be positive for item id ");
                push_decimal(&mut s, *item_id as u64);
            },
            CatalogBuildError::UnknownRecipeItemId { list, item_id } => {
                push_str(&mut s, "Recipe ");
                push_str(&mut s, list.as_str());
                push_str(&mut s, " references unknown item id ");
                push_decimal(&mut s, *item_id as u64);
            },
            CatalogBuildError::DuplicateRecipeItem { list, item_id } => {
                push_str(&mut s, "Recipe ");
                push_str(&mut s, list.as_str());
                push_str(&mut s, " contains duplicate item id ");
                push_decimal(&mut s, *item_id as u64);
            },
            CatalogBuildError::UnknownPowerRecipeIngredientItemId(id) => {
                push_str(&mut s, "Power recipe references unknown item id ");
                push_decimal(&mut s, *id as u64);
            },
            CatalogBuildError::PowerRecipeIngredientCountMustBePositive { item_id } => {
                push_str(&mut s, "Power recipe ingredient count must be positive for item id ");
                push_decimal(&mut s, *item_id as u64);
            },
            CatalogBuildError::PowerRecipePowerMustBePositive => {
                push_str(&mut s, "Power recipe power must be positive");
            },
            CatalogBuildError::PowerRecipeTimeMustBePositive => {
                push_str(&mut s, "Power recipe time must be positive");
            },
            CatalogBuildError::MultipleThermalBanks => {
                push_str(&mut s, "Multiple thermal banks");
            },
            CatalogBuildError::MissingThermalBank => {
                push_str(&mut s, "Missing thermal bank");
            },
        }
        proof {
            reveal_strlit("Duplicate item key: ");
            reveal_strlit("Duplicate facility key: ");
            reveal_strlit("Facility power must be positive: ");
            reveal_strlit("Recipe references unknown facility id ");
            reveal_strlit("Recipe time must be positive");
            reveal_strlit("Recipe ingredients must not be empty");
            reveal_strlit("Recipe products must not be empty");
            reveal_strlit("Recipe ");
            reveal_strlit("Power recipe references unknown item id ");
            reveal_strlit("Power recipe ingredient count must be positive for item id ");
            reveal_strlit("Power recipe power must be positive");
            reveal_strlit("Power recipe time must be positive");
            reveal_strlit("Multiple thermal banks");
            reveal_strlit("Missing thermal bank");
        }
        s
    }
}

// ---------------------------------------------------------------------------
// Well-formedness
// ---------------------------------------------------------------------------

/// No two items share a key.
pub open spec fn item_keys_distinct(items: Seq<ItemDef>) -> bool {
    forall|i: int, j: int|
        0 <= i < j < items.len() ==> #[trigger] items[i].key@ != #[trigger] items[j].key@
}

/// No two facilities share a key.
pub open spec fn facility_keys_distinct(facilities: Seq<FacilityDef>) -> bool {
    forall|i: int, j: int|
        0 <= i < j < facilities.len() ==> #[trigger] facilities[i].key@
            != #[trigger] facilities[j].key@
}

/// A stack is valid against a catalog with `n_items` items.
pub open spec fn valid_stack(s: Stack, n_items: nat) -> bool {
    s.count > 0 && s.item.raw() < n_items
}

/// No item occurs twice in a stack list.
pub open spec fn stack_items_distinct(stacks: Seq<Stack>) -> bool {
    forall|i: int, j: int|
        0 <= i < j < stacks.len() ==> #[trigger] stacks[i].item != #[trigger] stacks[j].item
}

/// A stack list is non-empty, valid stack by stack, and has no item twice.
pub open spec fn valid_stack_list(stacks: Seq<Stack>, n_items: nat) -> bool {
    &&& stacks.len() > 0
    &&& forall|i: int| 0 <= i < stacks.len() ==> valid_stack(#[trigger] stacks[i], n_items)
    &&& stack_items_distinct(stacks)
}

/// A recipe is valid against a catalog's table sizes.
pub open spec fn valid_recipe(r: Recipe, n_items: nat, n_facilities: nat) -> bool {
    &&& r.facility.raw() < n_facilities
    &&& r.time_s > 0
    &&& valid_stack_list(r.ingredients@, n_items)
    &&& valid_stack_list(r.products@, n_items)
}

/// A power recipe is valid against a catalog with `n_items` items.
pub open spec fn valid_power_recipe(p: PowerRecipe, n_items: nat) -> bool {
    &&& valid_stack(p.ingredient, n_items)
    &&& p.power_w > 0
    &&& p.time_s > 0
}

/// The tables of a catalog hold together: keys are unique, powers positive,
/// and every recipe refers to existing items and facilities.
pub open spec fn valid_tables(
    items: Seq<ItemDef>,
    facilities: Seq<FacilityDef>,
    recipes: Seq<Recipe>,
    power_recipes: Seq<PowerRecipe>,
) -> bool {
    &&& items.len() <= u32::MAX
    &&& facilities.len() <= u32::MAX
    &&& recipes.len() <= u32::MAX
    &&& power_recipes.len() <= u32::MAX
    &&& item_keys_distinct(items)
    &&& facility_keys_distinct(facilities)
    &&& forall|i: int| 0 <= i < facilities.len() ==> (#[trigger] facilities[i]).power_w > 0
    &&& forall|i: int|
        0 <= i < recipes.len() ==> valid_recipe(
            #[trigger] recipes[i],
            items.len(),
            facilities.len(),
        )
    &&& forall|i: int|
        0 <= i < power_recipes.len() ==> valid_power_recipe(#[trigger] power_recipes[i], items.len())
}

/// The thermal bank's key differs from every facility key.
pub open spec fn bank_key_fresh(facilities: Seq<FacilityDef>, bank: Option<Seq<char>>) -> bool {
    match bank {
        Some(k) => forall|i: int| 0 <= i < facilities.len() ==> (#[trigger] facilities[i]).key@ != k,
        None => true,
    }
}

/// Position of the item with key `key`, if any.
///
/// Keys are found by a linear scan of the table, whose keys the catalog's
/// invariant keeps distinct, rather than through a `HashMap` keyed by
/// `String`: vstd specifies such a map's lookups only for keys whose hashing
/// it models, and with `String` keys not even the size after one insert
/// could be proved.
fn find_item(items: &Vec<ItemDef>, key: &str) -> (r: Option<usize>)
    ensures
        match r {
            Some(i) => i < items@.len() && items@[i as int].key@ == key@,
            None => forall|i: int| 0 <= i < items@.len() ==> (#[trigger] items@[i]).key@ != key@,
        },
{
    let mut i: usize = 0;
    while i < items.len()
        invariant
            i <= items@.len(),
            forall|j: int| 0 <= j < i ==> (#[trigger] items@[j]).key@ != key@,
        decreases items@.len() - i,
    {
        if items[i].key.matches(key) {
            return Some(i);
        }
        i = i + 1;
    }
    None
}

/// Position of the facility with key `key`, if any.
fn find_facility(facilities: &Vec<FacilityDef>, key: &str) -> (r: Option<usize>)
    ensures
        match r {
            Some(i) => i < facilities@.len() && facilities@[i as int].key@ == key@,
            None => forall|i: int|
                0 <= i < facilities@.len() ==> (#[trigger] facilities@[i]).key@ != key@,
        },
{
    let mut i: usize = 0;
    while i < facilities.len()
        invariant
            i <= facilities@.len(),
            forall|j: int| 0 <= j < i ==> (#[trigger] facilities@[j]).key@ != key@,
        decreases facilities@.len() - i,
    {
        if facilities[i].key.matches(key) {
            return Some(i);
        }
        i = i + 1;
    }
    None
}

/// What validating one recipe stack list gives: the first stack, in order,
/// whose count is zero, whose item is unknown, or whose item occurred earlier
/// in the list, decides the error.
pub open spec fn stack_list_check(stacks: Seq<Stack>, n_items: nat, list: StackList) -> Result<
    (),
    CatalogBuildError,
>
    decreases stacks.len(),
{
    if stacks.len() == 0 {
        Ok(())
    } else {
        let prefix = stacks.drop_last();
        match stack_list_check(prefix, n_items, list) {
            Err(e) => Err(e),
            Ok(()) => {
                let s = stacks.last();
                if s.count == 0 {
                    Err(
                        CatalogBuildError::RecipeStackCountMustBePositive {
                            list,
                            item_id: s.item.raw(),
                        },
                    )
                } else if s.item.raw() >= n_items {
                    Err(CatalogBuildError::UnknownRecipeItemId { list, item_id: s.item.raw() })
                } else if exists|j: int| 0 <= j < prefix.len() && #[trigger] prefix[j].item == s.item {
                    Err(CatalogBuildError::DuplicateRecipeItem { list, item_id: s.item.raw() })
                } else {
                    Ok(())
                }
            },
        }
    }
}

/// What [`CatalogBuilder::push_recipe`] decides, given the table sizes.
pub open spec fn recipe_check(
    facility: FacilityId,
    time_s: u32,
    ingredients: Seq<Stack>,
    products: Seq<Stack>,
    n_items: nat,
    n_facilities: nat,
) -> Result<(), CatalogBuildError> {
    if facility.raw() >= n_facilities {
        Err(CatalogBuildError::UnknownRecipeFacilityId(facility.raw()))
    } else if time_s == 0 {
        Err(CatalogBuildError::RecipeTimeMustBePositive)
    } else if ingredients.len() == 0 {
        Err(CatalogBuildError::RecipeIngredientsMustNotBeEmpty)
    } else if products.len() == 0 {
        Err(CatalogBuildError::RecipeProductsMustNotBeEmpty)
    } else if stack_list_check(ingredients, n_items, StackList::Ingredients) is Err {
        stack_list_check(ingredients, n_items, StackList::Ingredients)
    } else {
        stack_list_check(products, n_items, StackList::Products)
    }
}

/// What [`CatalogBuilder::push_power_recipe`] decides, given the item count.
pub open spec fn power_recipe_check(p: PowerRecipe, n_items: nat) -> Result<(), CatalogBuildError> {
    if p.ingredient.item.raw() >= n_items {
        Err(CatalogBuildError::UnknownPowerRecipeIngredientItemId(p.ingredient.item.raw()))
    } else if p.ingredient.count == 0 {
        Err(
            CatalogBuildError::PowerRecipeIngredientCountMustBePositive {
                item_id: p.ingredient.item.raw(),
            },
        )
    } else if p.power_w == 0 {
        Err(CatalogBuildError::PowerRecipePowerMustBePositive)
    } else if p.time_s == 0 {
        Err(CatalogBuildError::PowerRecipeTimeMustBePositive)
    } else {
        Ok(())
    }
}

proof fn lemma_stack_list_check_ok(stacks: Seq<Stack>, n_items: nat, list: StackList)
    requires
        stack_list_check(stacks, n_items, list) is Ok,
    ensures
        forall|i: int| 0 <= i < stacks.len() ==> valid_stack(#[trigger] stacks[i], n_items),
        stack_items_distinct(stacks),
    decreases stacks.len(),
{
    if stacks.len() > 0 {
        let prefix = stacks.drop_last();
        lemma_stack_list_check_ok(prefix, n_items, list);
        assert forall|i: int| 0 <= i < stacks.len() implies valid_stack(
            #[trigger] stacks[i],
            n_items,
        ) by {
            if i < prefix.len() {
                assert(stacks[i] == prefix[i]);
            }
        }
        assert forall|i: int, j: int| 0 <= i < j < stacks.len() implies #[trigger] stacks[i].item
            != #[trigger] stacks[j].item by {
            if j < prefix.len() {
                assert(stacks[i] == prefix[i] && stacks[j] == prefix[j]);
            } else {
                assert(stacks[i] == prefix[i]);
                if stacks[i].item == stacks[j].item {
                    assert(prefix[i].item == stacks.last().item);
                }
            }
        }
    }
}

/// Checks one recipe stack list; see [`stack_list_check`].
fn validate_recipe_stacks(stacks: &Vec<Stack>, n_items: usize, list: StackList) -> (r: Result<
    (),
    CatalogBuildError,
>)
    ensures
        r == stack_list_check(stacks@, n_items as nat, list),
{
    let mut i: usize = 0;
    while i < stacks.len()
        invariant
            i <= stacks@.len(),
            stack_list_check(stacks@.take(i as int), n_items as nat, list) is Ok,
        decreases stacks@.len() - i,
    {
        let s = stacks[i];
        let ghost prefix = stacks@.take(i as int);
        assert(stacks@.take(i + 1).drop_last() =~= prefix);
        assert(stacks@.take(i + 1).last() == s);
        if s.count == 0 {
            proof {
                lemma_check_prefix_err(stacks@, n_items as nat, list, i + 1);
            }
            return Err(
                CatalogBuildError::RecipeStackCountMustBePositive { list, item_id: s.item.as_u32() },
            );
        }
        if s.item.index() >= n_items {
            proof {
                lemma_check_prefix_err(stacks@, n_items as nat, list, i + 1);
            }
            return Err(CatalogBuildError::UnknownRecipeItemId { list, item_id: s.item.as_u32() });
        }
        let mut j: usize = 0;
        while j < i
            invariant
                j <= i < stacks@.len(),
                s == stacks@[i as int],
                s.count > 0,
                s.item.raw() < n_items,
                prefix == stacks@.take(i as int),
                stacks@.take(i + 1).drop_last() == prefix,
                stacks@.take(i + 1).last() == s,
                stack_list_check(prefix, n_items as nat, list) is Ok,
                forall|k: int| 0 <= k < j ==> (#[trigger] prefix[k]).item != s.item,
            decreases i - j,
        {
            if stacks[j].item == s.item {
                assert(prefix[j as int].item == s.item);
                proof {
                    lemma_check_prefix_err(stacks@, n_items as nat, list, i + 1);
                }
                return Err(CatalogBuildError::DuplicateRecipeItem { list, item_id: s.item.as_u32() });
            }
            j = j + 1;
        }
        i = i + 1;
    }
    assert(stacks@.take(stacks@.len() as int) =~= stacks@);
    Ok(())
}

/// Once the check of a prefix fails, the check of the whole list fails with
/// the same error.
proof fn lemma_check_prefix_err(stacks: Seq<Stack>, n_items: nat, list: StackList, k: int)
    requires
        0 <= k <= stacks.len(),
        stack_list_check(stacks.take(k), n_items, list) is Err,
    ensures
        stack_list_check(stacks, n_items, list) == stack_list_check(stacks.take(k), n_items, list),
    decreases stacks.len() - k,
{
    if k == stacks.len() {
        assert(stacks.take(k) =~= stacks);
    } else {
        assert(stacks.take(k + 1).drop_last() =~= stacks.take(k));
        assert(stack_list_check(stacks.take(k + 1), n_items, list) == stack_list_check(
            stacks.take(k),
            n_items,
            list,
        ));
        lemma_check_prefix_err(stacks, n_items, list, k + 1);
    }
}

// ---------------------------------------------------------------------------
// Builder
// ---------------------------------------------------------------------------

/// The tables of a catalog under construction.
#[derive(Debug)]
struct Tables {
    items: Vec<ItemDef>,
    facilities: Vec<FacilityDef>,
    recipes: Vec<Recipe>,
    power_recipes: Vec<PowerRecipe>,
}

impl Tables {
    fn empty() -> (t: Tables)
        ensures
            t.items@.len() == 0,
            t.facilities@.len() == 0,
            t.recipes@.len() == 0,
            t.power_recipes@.len() == 0,
    {
        Tables {
            items: Vec::new(),
            facilities: Vec::new(),
            recipes: Vec::new(),
            power_recipes: Vec::new(),
        }
    }
}

/// Builder for [`Catalog`].
///
/// This is the only way to construct a catalog: it assigns ids densely in
/// insertion order, keeps keys unique, and checks every recipe against the
/// items and facilities added before it.
#[derive(Debug)]
pub struct CatalogBuilder {
    tables: Tables,
    thermal_bank: Option<ThermalBankDef>,
}

impl CatalogBuilder {
    /// Items added so far, in id order.
    pub closed spec fn spec_items(&self) -> Seq<ItemDef> {
        self.tables.items@
    }

    /// Facilities added so far, in id order.
    pub closed spec fn spec_facilities(&self) -> Seq<FacilityDef> {
        self.tables.facilities@
    }

    /// Recipes added so far, in id order.
    pub closed spec fn spec_recipes(&self) -> Seq<Recipe> {
        self.tables.recipes@
    }

    /// Power recipes added so far, in id order.
    pub closed spec fn spec_power_recipes(&self) -> Seq<PowerRecipe> {
        self.tables.power_recipes@
    }

    /// The key of the thermal bank, when it was added.
    pub closed spec fn spec_bank_key(&self) -> Option<Seq<char>> {
        match self.thermal_bank {
            Some(d) => Some(d.key@),
            None => None,
        }
    }

    #[verifier::type_invariant]
    closed spec fn inv(&self) -> bool {
        &&& valid_tables(
            self.tables.items@,
            self.tables.facilities@,
            self.tables.recipes@,
            self.tables.power_recipes@,
        )
        &&& bank_key_fresh(self.tables.facilities@, self.spec_bank_key())
    }

    /// The builder's tables hold together (keys unique, recipes valid).
    pub open spec fn wf(&self) -> bool {
        &&& valid_tables(
            self.spec_items(),
            self.spec_facilities(),
            self.spec_recipes(),
            self.spec_power_recipes(),
        )
        &&& bank_key_fresh(self.spec_facilities(), self.spec_bank_key())
    }

    /// Adds an item definition and returns its newly assigned [`ItemId`],
    /// the next dense index. Refused when an item with the same key exists.
    pub fn add_item(&mut self, def: ItemDef) -> (r: Result<ItemId, CatalogBuildError>)
        requires
            old(self).spec_items().len() < u32::MAX,
        ensures
            match r {
                Ok(id) => {
                    &&& (forall|i: int|
                        0 <= i < old(self).spec_items().len()
                            ==> (#[trigger] old(self).spec_items()[i]).key@ != def.key@)
                    &&& id.raw() == old(self).spec_items().len()
                    &&& final(self).spec_items() == old(self).spec_items().push(def)
                },
                Err(e) => {
                    &&& e matches CatalogBuildError::DuplicateItemKey(k)
                    &&& k@ == def.key@
                    &&& exists|i: int|
                        0 <= i < old(self).spec_items().len()
                            && (#[trigger] old(self).spec_items()[i]).key@ == def.key@
                    &&& final(self).spec_items() == old(self).spec_items()
                },
            },
            final(self).spec_facilities() == old(self).spec_facilities(),
            final(self).spec_recipes() == old(self).spec_recipes(),
            final(self).spec_power_recipes() == old(self).spec_power_recipes(),
            final(self).spec_bank_key() == old(self).spec_bank_key(),
    {
        proof {
            use_type_invariant(&*self);
        }
        if let Some(i) = find_item(&self.tables.items, def.key.as_str()) {
            return Err(CatalogBuildError::DuplicateItemKey(def.key));
        }
        let id = ItemId::from_index(self.tables.items.len());
        let mut t = Tables::empty();
        std::mem::swap(&mut t, &mut self.tables);
        t.items.push(def);
        proof {
            assert forall|i: int, j: int|
                0 <= i < j < t.items@.len() implies #[trigger] t.items@[i].key@
                != #[trigger] t.items@[j].key@ by {
                if j == t.items@.len() - 1 {
                    assert(t.items@[j] == def);
                }
            }
        }
        self.tables = t;
        Ok(id)
    }

    /// Adds a machine facility and returns its newly assigned [`FacilityId`],
    /// the next dense index. Refused when its key is the thermal bank's or
    /// another facility's, or when its power is zero.
    pub fn add_facility(&mut self, def: FacilityDef) -> (r: Result<FacilityId, CatalogBuildError>)
        requires
            old(self).spec_facilities().len() < u32::MAX,
        ensures
            match r {
                Ok(id) => {
                    &&& facility_check(old(self).spec_facilities(), old(self).spec_bank_key(), def)
                        is Ok
                    &&& id.raw() == old(self).spec_facilities().len()
                    &&& final(self).spec_facilities() == old(self).spec_facilities().push(def)
                },
                Err(e) => {
                    &&& facility_check(old(self).spec_facilities(), old(self).spec_bank_key(), def)
                        == Err::<(), CatalogBuildError>(e)
                    &&& final(self).spec_facilities() == old(self).spec_facilities()
                },
            },
            final(self).spec_items() == old(self).spec_items(),
            final(self).spec_recipes() == old(self).spec_recipes(),
            final(self).spec_power_recipes() == old(self).spec_power_recipes(),
            final(self).spec_bank_key() == old(self).spec_bank_key(),
    {
        proof {
            use_type_invariant(&*self);
        }
        if let Some(bank) = &self.thermal_bank {
            if bank.key.matches(def.key.as_str()) {
                return Err(CatalogBuildError::DuplicateFacilityKey(def.key));
            }
        }
        if let Some(i) = find_facility(&self.tables.facilities, def.key.as_str()) {
            return Err(CatalogBuildError::DuplicateFacilityKey(def.key));
        }
        if def.power_w == 0 {
            return Err(CatalogBuildError::FacilityPowerMustBePositive { key: def.key });
        }
        let id = FacilityId::from_index(self.tables.facilities.len());
        let mut t = Tables::empty();
        std::mem::swap(&mut t, &mut self.tables);
        let ghost old_f = t.facilities@;
        t.facilities.push(def);
        proof {
            assert forall|i: int, j: int|
                0 <= i < j < t.facilities@.len() implies #[trigger] t.facilities@[i].key@
                != #[trigger] t.facilities@[j].key@ by {
                if j == t.facilities@.len() - 1 {
                    assert(t.facilities@[j] == def);
                    assert(t.facilities@[i] == old_f[i]);
                }
            }
            assert forall|i: int| 0 <= i < t.facilities@.len() implies (
            #[trigger] t.facilities@[i]).power_w > 0 by {
                if i < old_f.len() {
                    assert(t.facilities@[i] == old_f[i]);
                }
            }
            assert forall|i: int|
                0 <= i < t.recipes@.len() implies valid_recipe(
                #[trigger] t.recipes@[i],
                t.items@.len(),
                t.facilities@.len(),
            ) by {
                assert(valid_recipe(t.recipes@[i], t.items@.len(), old_f.len()));
            }
            match self.spec_bank_key() {
                Some(k) => {
                    assert forall|i: int| 0 <= i < t.facilities@.len() implies (
                    #[trigger] t.facilities@[i]).key@ != k by {
                        if i < old_f.len() {
                            assert(t.facilities@[i] == old_f[i]);
                        }
                    }
                },
                None => {},
            }
        }
        self.tables = t;
        Ok(id)
    }

    /// Appends a production recipe and returns its assigned [`RecipeId`].
    ///
    /// Checked in this order: the facility must exist, the time must be
    /// positive, ingredients and products must be non-empty, and then each
    /// list, stack by stack, must have positive counts, known items and no
    /// item twice (see [`recipe_check`]).
    pub fn push_recipe(
        &mut self,
        facility: FacilityId,
        time_s: u32,
        ingredients: Vec<Stack>,
        products: Vec<Stack>,
    ) -> (r: Result<RecipeId, CatalogBuildError>)
        requires
            old(self).spec_recipes().len() < u32::MAX,
        ensures
            match r {
                Ok(id) => {
                    &&& recipe_check(
                        facility,
                        time_s,
                        ingredients@,
                        products@,
                        old(self).spec_items().len(),
                        old(self).spec_facilities().len(),
                    ) is Ok
                    &&& id.raw() == old(self).spec_recipes().len()
                    &&& final(self).spec_recipes() == old(self).spec_recipes().push(
                        Recipe { facility, time_s, ingredients, products },
                    )
                },
                Err(e) => {
                    &&& recipe_check(
                        facility,
                        time_s,
                        ingredients@,
                        products@,
                        old(self).spec_items().len(),
                        old(self).spec_facilities().len(),
                    ) == Err::<(), CatalogBuildError>(e)
                    &&& final(self).spec_recipes() == old(self).spec_recipes()
                },
            },
            final(self).spec_items() == old(self).spec_items(),
            final(self).spec_facilities() == old(self).spec_facilities(),
            final(self).spec_power_recipes() == old(self).spec_power_recipes(),
            final(self).spec_bank_key() == old(self).spec_bank_key(),
    {
        proof {
            use_type_invariant(&*self);
        }
        if facility.index() >= self.tables.facilities.len() {
            return Err(CatalogBuildError::UnknownRecipeFacilityId(facility.as_u32()));
        }
        if time_s == 0 {
            return Err(CatalogBuildError::RecipeTimeMustBePositive);
        }
        if ingredients.len() == 0 {
            return Err(CatalogBuildError::RecipeIngredientsMustNotBeEmpty);
        }
        if products.len() == 0 {
            return Err(CatalogBuildError::RecipeProductsMustNotBeEmpty);
        }
        let n_items = self.tables.items.len();
        match validate_recipe_stacks(&ingredients, n_items, StackList::Ingredients) {
            Err(e) => {
                return Err(e);
            },
            Ok(()) => {},
        }
        match validate_recipe_stacks(&products, n_items, StackList::Products) {
            Err(e) => {
                return Err(e);
            },
            Ok(()) => {},
        }
        proof {
            lemma_stack_list_check_ok(ingredients@, n_items as nat, StackList::Ingredients);
            lemma_stack_list_check_ok(products@, n_items as nat, StackList::Products);
        }
        let id = RecipeId::from_index(self.tables.recipes.len());
        let mut t = Tables::empty();
        std::mem::swap(&mut t, &mut self.tables);
        let ghost old_r = t.recipes@;
        let ghost rec = Recipe { facility, time_s, ingredients, products };
        t.recipes.push(Recipe { facility, time_s, ingredients, products });
        proof {
            assert(t.recipes@ == old_r.push(rec));
            assert forall|i: int|
                0 <= i < t.recipes@.len() implies valid_recipe(
                #[trigger] t.recipes@[i],
                t.items@.len(),
                t.facilities@.len(),
            ) by {
                if i < old_r.len() {
                    assert(t.recipes@[i] == old_r[i]);
                }
            }
        }
        self.tables = t;
        Ok(id)
    }

    /// Appends a thermal-bank power recipe and returns its assigned
    /// [`PowerRecipeId`]. Its ingredient must be a known item with a positive
    /// count, and its power and time must be positive (checked in that order).
    pub fn push_power_recipe(&mut self, recipe: PowerRecipe) -> (r: Result<
        PowerRecipeId,
        CatalogBuildError,
    >)
        requires
            old(self).spec_power_recipes().len() < u32::MAX,
        ensures
            match r {
                Ok(id) => {
                    &&& power_recipe_check(recipe, old(self).spec_items().len()) is Ok
                    &&& id.raw() == old(self).spec_power_recipes().len()
                    &&& final(self).spec_power_recipes() == old(self).spec_power_recipes().push(
                        recipe,
                    )
                },
                Err(e) => {
                    &&& power_recipe_check(recipe, old(self).spec_items().len()) == Err::<
                        (),
                        CatalogBuildError,
                    >(e)
                    &&& final(self).spec_power_recipes() == old(self).spec_power_recipes()
                },
            },
            final(self).spec_items() == old(self).spec_items(),
            final(self).spec_facilities() == old(self).spec_facilities(),
            final(self).spec_recipes() == old(self).spec_recipes(),
            final(self).spec_bank_key() == old(self).spec_bank_key(),
    {
        proof {
            use_type_invariant(&*self);
        }
        if recipe.ingredient.item.index() >= self.tables.items.len() {
            return Err(
                CatalogBuildError::UnknownPowerRecipeIngredientItemId(
                    recipe.ingredient.item.as_u32(),
                ),
            );
        }
        if recipe.ingredient.count == 0 {
            return Err(
                CatalogBuildError::PowerRecipeIngredientCountMustBePositive {
                    item_id: recipe.ingredient.item.as_u32(),
                },
            );
        }
        if recipe.power_w == 0 {
            return Err(CatalogBuildError::PowerRecipePowerMustBePositive);
        }
        if recipe.time_s == 0 {
            return Err(CatalogBuildError::PowerRecipeTimeMustBePositive);
        }
        let id = PowerRecipeId::from_index(self.tables.power_recipes.len());
        let mut t = Tables::empty();
        std::mem::swap(&mut t, &mut self.tables);
        let ghost old_p = t.power_recipes@;
        t.power_recipes.push(recipe);
        proof {
            assert forall|i: int|
                0 <= i < t.power_recipes@.len() implies valid_power_recipe(
                #[trigger] t.power_recipes@[i],
                t.items@.len(),
            ) by {
                if i < old_p.len() {
                    assert(t.power_recipes@[i] == old_p[i]);
                }
            }
        }
        self.tables = t;
        Ok(id)
    }

    /// Resolves an item key into an [`ItemId`] using the current builder state.
    pub fn item_id(&self, key: &str) -> (r: Option<ItemId>)
        ensures
            match r {
                Some(id) => id.raw() < self.spec_items().len() && self.spec_items()[id.raw() as int].key@
                    == key@,
                None => forall|i: int|
                    0 <= i < self.spec_items().len() ==> (#[trigger] self.spec_items()[i]).key@
                        != key@,
            },
    {
        proof {
            use_type_invariant(self);
        }
        match find_item(&self.tables.items, key) {
            Some(i) => Some(ItemId::from_index(i)),
            None => None,
        }
    }

    /// Resolves a facility key into a [`FacilityId`] using the current builder
    /// state. The thermal bank is not a facility that recipes can use.
    pub fn facility_id(&self, key: &str) -> (r: Option<FacilityId>)
        ensures
            match r {
                Some(id) => id.raw() < self.spec_facilities().len()
                    && self.spec_facilities()[id.raw() as int].key@ == key@,
                None => forall|i: int|
                    0 <= i < self.spec_facilities().len() ==> (
                    #[trigger] self.spec_facilities()[i]).key@ != key@,
            },
    {
        proof {
            use_type_invariant(self);
        }
        match find_facility(&self.tables.facilities, key) {
            Some(i) => Some(FacilityId::from_index(i)),
            None => None,
        }
    }

    /// Number of items added so far.
    pub fn item_count(&self) -> (n: usize)
        ensures
            n == self.spec_items().len(),
    {
        self.tables.items.len()
    }

    /// The thermal bank, once it was added.
    pub fn thermal_bank(&self) -> (r: Option<&ThermalBankDef>)
        ensures
            match r {
                Some(d) => self.spec_bank_key() == Some(d.key@),
                None => self.spec_bank_key() is None,
            },
    {
        match &self.thermal_bank {
            Some(d) => Some(d),
            None => None,
        }
    }

    /// Number of facilities added so far.
    pub fn facility_count(&self) -> (n: usize)
        ensures
            n == self.spec_facilities().len(),
    {
        self.tables.facilities.len()
    }

    /// Number of recipes added so far.
    pub fn recipe_count(&self) -> (n: usize)
        ensures
            n == self.spec_recipes().len(),
    {
        self.tables.recipes.len()
    }

    /// Number of power recipes added so far.
    pub fn power_recipe_count(&self) -> (n: usize)
        ensures
            n == self.spec_power_recipes().len(),
    {
        self.tables.power_recipes.len()
    }
}

/// What [`CatalogBuilder::add_facility`] decides: a key taken by the thermal
/// bank or by a facility, then a zero power, are refused.
pub open spec fn facility_check(
    facilities: Seq<FacilityDef>,
    bank: Option<Seq<char>>,
    def: FacilityDef,
) -> Result<(), CatalogBuildError> {
    if bank == Some(def.key@) || exists|i: int|
        0 <= i < facilities.len() && (#[trigger] facilities[i]).key@ == def.key@ {
        Err(CatalogBuildError::DuplicateFacilityKey(def.key))
    } else if def.power_w == 0 {
        Err(CatalogBuildError::FacilityPowerMustBePositive { key: def.key })
    } else {
        Ok(())
    }
}

/// What [`CatalogBuilder::add_thermal_bank`] decides: a key taken by the
/// thermal bank or by a facility is refused, then a second thermal bank.
pub open spec fn thermal_bank_check(
    facilities: Seq<FacilityDef>,
    bank: Option<Seq<char>>,
    def: ThermalBankDef,
) -> Result<(), CatalogBuildError> {
    if bank == Some(def.key@) || exists|i: int|
        0 <= i < facilities.len() && (#[trigger] facilities[i]).key@ == def.key@ {
        Err(CatalogBuildError::DuplicateFacilityKey(def.key))
    } else if bank is Some {
        Err(CatalogBuildError::MultipleThermalBanks)
    } else {
        Ok(())
    }
}

impl CatalogBuilder {
    /// Creates an empty builder.
    pub fn new() -> (b: Self)
        ensures
            b.spec_items().len() == 0,
            b.spec_facilities().len() == 0,
            b.spec_recipes().len() == 0,
            b.spec_power_recipes().len() == 0,
            b.spec_bank_key() is None,
    {
        CatalogBuilder { tables: Tables::empty(), thermal_bank: None }
    }

    /// Adds the thermal bank definition. A catalog has exactly one: refused
    /// when its key is a facility's (or the bank's own), or when a thermal
    /// bank was already added.
    pub fn add_thermal_bank(&mut self, def: ThermalBankDef) -> (r: Result<(), CatalogBuildError>)
        ensures
            match r {
                Ok(()) => {
                    &&& thermal_bank_check(old(self).spec_facilities(), old(self).spec_bank_key(), def)
                        is Ok
                    &&& final(self).spec_bank_key() == Some(def.key@)
                },
                Err(e) => {
                    &&& thermal_bank_check(old(self).spec_facilities(), old(self).spec_bank_key(), def)
                        == Err::<(), CatalogBuildError>(e)
                    &&& final(self).spec_bank_key() == old(self).spec_bank_key()
                },
            },
            final(self).spec_items() == old(self).spec_items(),
            final(self).spec_facilities() == old(self).spec_facilities(),
            final(self).spec_recipes() == old(self).spec_recipes(),
            final(self).spec_power_recipes() == old(self).spec_power_recipes(),
    {
        proof {
            use_type_invariant(&*self);
        }
        if let Some(bank) = &self.thermal_bank {
            if bank.key.matches(def.key.as_str()) {
                return Err(CatalogBuildError::DuplicateFacilityKey(def.key));
            }
        }
        if let Some(i) = find_facility(&self.tables.facilities, def.key.as_str()) {
            return Err(CatalogBuildError::DuplicateFacilityKey(def.key));
        }
        if self.thermal_bank.is_some() {
            return Err(CatalogBuildError::MultipleThermalBanks);
        }
        self.thermal_bank = Some(def);
        Ok(())
    }

    /// Finalizes the builder and returns the catalog, with the same tables.
    /// Refused when no thermal bank was added.
    pub fn build(self) -> (r: Result<Catalog, CatalogBuildError>)
        ensures
            r is Ok <==> self.spec_bank_key() is Some,
            match r {
                Ok(c) => {
                    &&& c.spec_items() == self.spec_items()
                    &&& c.spec_facilities() == self.spec_facilities()
                    &&& c.spec_recipes() == self.spec_recipes()
                    &&& c.spec_power_recipes() == self.spec_power_recipes()
                    &&& Some(c.spec_bank().key@) == self.spec_bank_key()
                },
                Err(e) => e is MissingThermalBank,
            },
    {
        if self.thermal_bank.is_none() {
            return Err(CatalogBuildError::MissingThermalBank);
        }
        Ok(self.finish())
    }

    /// The catalog of a builder that holds its thermal bank.
    pub(crate) fn finish(self) -> (c: Catalog)
        requires
            self.spec_bank_key() is Some,
        ensures
            c.spec_items() == self.spec_items(),
            c.spec_facilities() == self.spec_facilities(),
            c.spec_recipes() == self.spec_recipes(),
            c.spec_power_recipes() == self.spec_power_recipes(),
            Some(c.spec_bank().key@) == self.spec_bank_key(),
    {
        proof {
            use_type_invariant(&self);
        }
        let CatalogBuilder { tables, thermal_bank } = self;
        Catalog { tables, thermal_bank: thermal_bank.unwrap() }
    }
}

// ---------------------------------------------------------------------------
// Catalog
// ---------------------------------------------------------------------------

/// Canonical in-memory model of items, facilities and recipes.
///
/// Its fields are private so that ids and tables cannot drift apart:
/// construct a catalog with [`Catalog::builder`] / [`CatalogBuilder::build`].
#[derive(Debug)]
pub struct Catalog {
    tables: Tables,
    thermal_bank: ThermalBankDef,
}

impl Catalog {
    /// Items in id order.
    pub closed spec fn spec_items(&self) -> Seq<ItemDef> {
        self.tables.items@
    }

    /// Facilities in id order.
    pub closed spec fn spec_facilities(&self) -> Seq<FacilityDef> {
        self.tables.facilities@
    }

    /// Production recipes in id order.
    pub closed spec fn spec_recipes(&self) -> Seq<Recipe> {
        self.tables.recipes@
    }

    /// Power recipes in id order.
    pub closed spec fn spec_power_recipes(&self) -> Seq<PowerRecipe> {
        self.tables.power_recipes@
    }

    /// The thermal bank.
    pub closed spec fn spec_bank(&self) -> ThermalBankDef {
        self.thermal_bank
    }

    #[verifier::type_invariant]
    closed spec fn inv(&self) -> bool {
        &&& valid_tables(
            self.tables.items@,
            self.tables.facilities@,
            self.tables.recipes@,
            self.tables.power_recipes@,
        )
        &&& bank_key_fresh(self.tables.facilities@, Some(self.thermal_bank.key@))
    }

    /// The catalog's tables hold together (keys unique, recipes valid).
    pub open spec fn wf(&self) -> bool {
        &&& valid_tables(
            self.spec_items(),
            self.spec_facilities(),
            self.spec_recipes(),
            self.spec_power_recipes(),
        )
        &&& bank_key_fresh(self.spec_facilities(), Some(self.spec_bank().key@))
    }

    /// States that this catalog is well formed; it does no work at run time.
    pub fn well_formed(&self)
        ensures
            self.wf(),
    {
        proof {
            use_type_invariant(self);
        }
    }

    /// Starts building a [`Catalog`].
    pub fn builder() -> (b: CatalogBuilder)
        ensures
            b.spec_items().len() == 0,
            b.spec_facilities().len() == 0,
            b.spec_recipes().len() == 0,
            b.spec_power_recipes().len() == 0,
            b.spec_bank_key() is None,
    {
        CatalogBuilder::new()
    }

    /// The core generation capacity in watts (fixed at 200 W).
    pub fn core_power_w(&self) -> (w: u32)
        ensures
            w == CORE_POWER_W,
    {
        CORE_POWER_W
    }

    /// Item metadata by id; `None` for an id outside this catalog.
    pub fn item(&self, id: ItemId) -> (r: Option<&ItemDef>)
        ensures
            match r {
                Some(d) => id.raw() < self.spec_items().len() && *d == self.spec_items()[id.raw() as int],
                None => id.raw() >= self.spec_items().len(),
            },
    {
        if id.index() < self.tables.items.len() {
            Some(&self.tables.items[id.index()])
        } else {
            None
        }
    }

    /// Facility metadata by id; `None` for an id outside this catalog.
    pub fn facility(&self, id: FacilityId) -> (r: Option<&FacilityDef>)
        ensures
            match r {
                Some(d) => id.raw() < self.spec_facilities().len() && *d
                    == self.spec_facilities()[id.raw() as int],
                None => id.raw() >= self.spec_facilities().len(),
            },
    {
        if id.index() < self.tables.facilities.len() {
            Some(&self.tables.facilities[id.index()])
        } else {
            None
        }
    }

    /// A recipe by id; `None` for an id outside this catalog.
    pub fn recipe(&self, id: RecipeId) -> (r: Option<&Recipe>)
        ensures
            match r {
                Some(d) => id.raw() < self.spec_recipes().len() && *d == self.spec_recipes()[id.raw() as int],
                None => id.raw() >= self.spec_recipes().len(),
            },
    {
        if id.index() < self.tables.recipes.len() {
            Some(&self.tables.recipes[id.index()])
        } else {
            None
        }
    }

    /// A power recipe by id; `None` for an id outside this catalog.
    pub fn power_recipe(&self, id: PowerRecipeId) -> (r: Option<&PowerRecipe>)
        ensures
            match r {
                Some(d) => id.raw() < self.spec_power_recipes().len() && *d
                    == self.spec_power_recipes()[id.raw() as int],
                None => id.raw() >= self.spec_power_recipes().len(),
            },
    {
        if id.index() < self.tables.power_recipes.len() {
            Some(&self.tables.power_recipes[id.index()])
        } else {
            None
        }
    }

    /// The unique thermal bank definition.
    pub fn thermal_bank(&self) -> (r: &ThermalBankDef)
        ensures
            *r == self.spec_bank(),
    {
        &self.thermal_bank
    }

    /// All items in id order.
    pub fn items(&self) -> (r: &[ItemDef])
        ensures
            r@ == self.spec_items(),
    {
        self.tables.items.as_slice()
    }

    /// All facilities in id order.
    pub fn facilities(&self) -> (r: &[FacilityDef])
        ensures
            r@ == self.spec_facilities(),
    {
        self.tables.facilities.as_slice()
    }

    /// All production recipes in id order.
    pub fn recipes(&self) -> (r: &[Recipe])
        ensures
            r@ == self.spec_recipes(),
    {
        self.tables.recipes.as_slice()
    }

    /// All power recipes in id order.
    pub fn power_recipes(&self) -> (r: &[PowerRecipe])
        ensures
            r@ == self.spec_power_recipes(),
    {
        self.tables.power_recipes.as_slice()
    }

    /// Number of items.
    pub fn item_count(&self) -> (n: usize)
        ensures
            n == self.spec_items().len(),
    {
        self.tables.items.len()
    }

    /// The ids of all production recipes, in order.
    pub fn recipe_ids(&self) -> (ids: Vec<RecipeId>)
        ensures
            ids@.len() == self.spec_recipes().len(),
            forall|i: int| 0 <= i < ids@.len() ==> (#[trigger] ids@[i]).raw() == i,
    {
        proof {
            use_type_invariant(self);
        }
        let mut ids: Vec<RecipeId> = Vec::new();
        let n = self.tables.recipes.len();
        let mut i: usize = 0;
        while i < n
            invariant
                i <= n,
                n == self.spec_recipes().len(),
                n <= u32::MAX,
                ids@.len() == i,
                forall|j: int| 0 <= j < i ==> (#[trigger] ids@[j]).raw() == j,
            decreases n - i,
        {
            ids.push(RecipeId::from_index(i));
            i = i + 1;
        }
        ids
    }

    /// The ids of all power recipes, in order.
    pub fn power_recipe_ids(&self) -> (ids: Vec<PowerRecipeId>)
        ensures
            ids@.len() == self.spec_power_recipes().len(),
            forall|i: int| 0 <= i < ids@.len() ==> (#[trigger] ids@[i]).raw() == i,
    {
        proof {
            use_type_invariant(self);
        }
        let mut ids: Vec<PowerRecipeId> = Vec::new();
        let n = self.tables.power_recipes.len();
        let mut i: usize = 0;
        while i < n
            invariant
                i <= n,
                n == self.spec_power_recipes().len(),
                n <= u32::MAX,
                ids@.len() == i,
                forall|j: int| 0 <= j < i ==> (#[trigger] ids@[j]).raw() == j,
            decreases n - i,
        {
            ids.push(PowerRecipeId::from_index(i));
            i = i + 1;
        }
        ids
    }

    /// The ids of all items, in order.
    pub fn item_ids(&self) -> (ids: Vec<ItemId>)
        ensures
            ids@.len() == self.spec_items().len(),
            forall|i: int| 0 <= i < ids@.len() ==> (#[trigger] ids@[i]).raw() == i,
    {
        proof {
            use_type_invariant(self);
        }
        let mut ids: Vec<ItemId> = Vec::new();
        let n = self.tables.items.len();
        let mut i: usize = 0;
        while i < n
            invariant
                i <= n,
                n == self.spec_items().len(),
                n <= u32::MAX,
                ids@.len() == i,
                forall|j: int| 0 <= j < i ==> (#[trigger] ids@[j]).raw() == j,
            decreases n - i,
        {
            ids.push(ItemId::from_index(i));
            i = i + 1;
        }
        ids
    }

    /// Resolves an item key into an [`ItemId`].
    pub fn item_id(&self, key: &str) -> (r: Option<ItemId>)
        ensures
            match r {
                Some(id) => id.raw() < self.spec_items().len() && self.spec_items()[id.raw() as int].key@
                    == key@,
                None => forall|i: int|
                    0 <= i < self.spec_items().len() ==> (#[trigger] self.spec_items()[i]).key@
                        != key@,
            },
    {
        proof {
            use_type_invariant(self);
        }
        match find_item(&self.tables.items, key) {
            Some(i) => Some(ItemId::from_index(i)),
            None => None,
        }
    }

    /// Resolves a facility key into a [`FacilityId`].
    pub fn facility_id(&self, key: &str) -> (r: Option<FacilityId>)
        ensures
            match r {
                Some(id) => id.raw() < self.spec_facilities().len()
                    && self.spec_facilities()[id.raw() as int].key@ == key@,
                None => forall|i: int|
                    0 <= i < self.spec_facilities().len() ==> (
                    #[trigger] self.spec_facilities()[i]).key@ != key@,
            },
    {
        proof {
            use_type_invariant(self);
        }
        match find_facility(&self.tables.facilities, key) {
            Some(i) => Some(FacilityId::from_index(i)),
            None => None,
        }
    }

    /// Whether the facility can be built in `region`; `false` for an id
    /// outside this catalog.
    pub fn facility_available_in_region(&self, facility: FacilityId, region: Region) -> (b: bool)
        ensures
            b == (facility.raw() < self.spec_facilities().len() && self.spec_facilities()[facility.raw() as int].regions.spec_allows(region)),
    {
        match self.facility(facility) {
            Some(def) => def.regions.allows(region),
            None => false,
        }
    }
}

/// Looking up a key right after adding it gives the new id: keys stay
/// unique, so the new item is the only one with its key.
pub proof fn law_item_lookup_after_add(items: Seq<ItemDef>, def: ItemDef, i: int)
    requires
        item_keys_distinct(items),
        forall|j: int| 0 <= j < items.len() ==> (#[trigger] items[j]).key@ != def.key@,
        0 <= i < items.len() + 1,
        items.push(def)[i].key@ == def.key@,
    ensures
        i == items.len(),
        item_keys_distinct(items.push(def)),
{
    if i < items.len() {
        assert(items.push(def)[i] == items[i]);
    }
    assert forall|a: int, b: int|
        0 <= a < b < items.push(def).len() implies #[trigger] items.push(def)[a].key@
        != #[trigger] items.push(def)[b].key@ by {
        if b == items.len() {
            assert(items.push(def)[a] == items[a]);
        } else {
            assert(items.push(def)[a] == items[a]);
            assert(items.push(def)[b] == items[b]);
        }
    }
}

} // verus!
