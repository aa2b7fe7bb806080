//! The web front end's view of a plan: catalog items, the nodes and edges
//! of the logistics graph with their labels, and facility usage.
//!
//! Figures per minute are fractional and are attached to these rows outside
//! this library.

use vstd::prelude::*;

use crate::aic::AicInputs;
use crate::catalog::{Catalog, FacilityId, ItemId, PowerRecipeId, RecipeId};
use crate::logistics::{LogisticsNode, LogisticsNodeId, LogisticsNodeSite};
use crate::plan::FacilityMachineCount;
use crate::report::spec_outpost_name;
use crate::sorting::{lemma_sort_stable_view, sort_by_order, sort_stable_by, SortOrder};
use crate::strings::{
    ascii_lower, chars_lt, char_is_white_space, lemma_chars_lt_total, lemma_chars_lt_transitive, decimal, is_white_space, push_char,
    push_decimal, push_str, str_chars, str_eq, str_lt, string_of, trim_chars,
};

verus! {

/// Language of the web payload.
#[derive(Debug, Clone, Copy, PartialEq, Eq, Structural)]
pub enum Lang {
    Zh,
    En,
}

/// Why a web request could not be answered.
#[derive(Debug)]
pub enum WebError {
    MissingLogisticsNode { item: u32, node: u32 },
    UnknownLang { value: String },
    MissingItem(u32),
    MissingFacility(u32),
    MissingOutpost(u32),
    MissingRecipe(u32),
}

impl WebError {
    pub open spec fn spec_message(&self) -> Seq<char> {
        match self {
            WebError::MissingLogisticsNode { item, node } => "Missing logistics node "@ + decimal(*node as nat)
                + " for item "@ + decimal(*item as nat),
            WebError::UnknownLang { value } => "Unknown lang `"@ + value@ + "` (expected `zh` or `en`)"@,
            WebError::MissingItem(i) => "Missing item id "@ + decimal(*i as nat),
            WebError::MissingFacility(i) => "Missing facility id "@ + decimal(*i as nat),
            WebError::MissingOutpost(i) => "Missing outpost index "@ + decimal(*i as nat),
            WebError::MissingRecipe(i) => "Missing recipe index "@ + decimal(*i as nat),
        }
    }

    /// The message that describes this error.
    pub fn message(&self) -> (s: String)
        ensures
            s@ == self.spec_message(),
    {
        match self {
            WebError::MissingLogisticsNode { item, node } => {
                let mut s = string_of("Missing logistics node ");
                push_decimal(&mut s, *node as u64);
                push_str(&mut s, " for item ");
                push_decimal(&mut s, *item as u64);
                s
            },
            WebError::UnknownLang { value } => {
                let mut s = string_of("Unknown lang `");
                push_str(&mut s, value.as_str());
                push_str(&mut s, "` (expected `zh` or `en`)");
                s
            },
            WebError::MissingItem(i) => {
                let mut s = string_of("Missing item id ");
                push_decimal(&mut s, *i as u64);
                s
            },
            WebError::MissingFacility(i) => {
                let mut s = string_of("Missing facility id ");
                push_decimal(&mut s, *i as u64);
                s
            },
            WebError::MissingOutpost(i) => {
                let mut s = string_of("Missing outpost index ");
                push_decimal(&mut s, *i as u64);
                s
            },
            WebError::MissingRecipe(i) => {
                let mut s = string_of("Missing recipe index ");
                push_decimal(&mut s, *i as u64);
                s
            },
        }
    }
}

/// A text trimmed of white space at both ends and put in ASCII lower case.
pub open spec fn trim_lower(s: Seq<char>) -> Seq<char> {
    trim_chars(s).map_values(|c: char| ascii_lower(c))
}

fn lower_char(c: char) -> (r: char)
    ensures
        r == ascii_lower(c),
{
    if 'A' <= c && c <= 'Z' {
        let b = (c as u32) + 32;
        assert(b < 128);
        let r = (b as u8) as char;
        assert(r as u32 == b);
        r
    } else {
        c
    }
}

/// Trims a text and puts it in ASCII lower case.
pub fn trim_lowercase(s: &str) -> (r: String)
    ensures
        r@ == trim_lower(s@),
{
    let cs = str_chars(s);
    let mut lo: usize = 0;
    let mut hi: usize = cs.len();
    assert(s@.subrange(0, cs@.len() as int) =~= s@);
    while lo < hi && (char_is_white_space(cs[lo]) || char_is_white_space(cs[hi - 1]))
        invariant
            lo <= hi <= cs@.len(),
            cs@ == s@,
            trim_chars(s@) == trim_chars(s@.subrange(lo as int, hi as int)),
        decreases hi - lo,
    {
        let ghost sub = s@.subrange(lo as int, hi as int);
        if char_is_white_space(cs[lo]) {
            assert(sub[0] == cs@[lo as int]);
            assert(sub.drop_first() =~= s@.subrange(lo + 1, hi as int));
            lo = lo + 1;
        } else {
            assert(sub[0] == cs@[lo as int]);
            assert(sub.last() == cs@[hi - 1]);
            assert(sub.drop_last() =~= s@.subrange(lo as int, hi - 1));
            hi = hi - 1;
        }
    }
    proof {
        let sub = s@.subrange(lo as int, hi as int);
        if lo < hi {
            assert(sub[0] == cs@[lo as int]);
            assert(sub.last() == cs@[hi - 1]);
        }
    }
    let mut r = String::new();
    let mut i: usize = lo;
    while i < hi
        invariant
            lo <= i <= hi <= cs@.len(),
            cs@ == s@,
            r@ == s@.subrange(lo as int, i as int).map_values(|c: char| ascii_lower(c)),
        decreases hi - i,
    {
        let c = lower_char(cs[i]);
        push_char(&mut r, c);
        proof {
            assert(s@.subrange(lo as int, i + 1) =~= s@.subrange(lo as int, i as int).push(s@[i as int]));
            assert(r@ =~= s@.subrange(lo as int, i + 1).map_values(|c: char| ascii_lower(c)));
        }
        i = i + 1;
    }
    r
}

impl Lang {
    /// Reads a language tag: `zh` or `en`, ignoring white space at either
    /// end and ASCII case. Another tag is refused with its trimmed,
    /// lower-cased form.
    pub fn parse(tag: &str) -> (r: Result<Lang, WebError>)
        ensures
            trim_lower(tag@) == "zh"@ ==> r matches Ok(Lang::Zh),
            trim_lower(tag@) == "en"@ ==> r matches Ok(Lang::En),
            trim_lower(tag@) != "zh"@ && trim_lower(tag@) != "en"@ ==> (r matches Err(
                WebError::UnknownLang { value },
            ) && value@ == trim_lower(tag@)),
    {
        proof {
            reveal_strlit("zh");
            reveal_strlit("en");
            assert("zh"@[0] != "en"@[0]);
        }
        let v = trim_lowercase(tag);
        if str_eq(v.as_str(), "zh") {
            Ok(Lang::Zh)
        } else if str_eq(v.as_str(), "en") {
            Ok(Lang::En)
        } else {
            Err(WebError::UnknownLang { value: v })
        }
    }

    /// The language's tag.
    pub fn tag(self) -> (s: &'static str)
        ensures
            s@ == (match self {
                Lang::Zh => "zh"@,
                Lang::En => "en"@,
            }),
    {
        match self {
            Lang::Zh => "zh",
            Lang::En => "en",
        }
    }
}

// ---------------------------------------------------------------------------
// Catalog items
// ---------------------------------------------------------------------------

/// One catalog item as the web page lists it.
#[derive(Debug)]
pub struct CatalogItemDto {
    pub key: String,
    pub en: String,
    pub zh: String,
}

/// Catalog items are listed by key.
pub open spec fn item_dto_view(d: CatalogItemDto) -> (Seq<char>, Seq<char>, Seq<char>) {
    (d.key@, d.en@, d.zh@)
}

/// Orders listed items by key.
pub open spec fn item_dto_lt(a: (Seq<char>, Seq<char>, Seq<char>), b: (Seq<char>, Seq<char>, Seq<char>)) -> bool {
    chars_lt(a.0, b.0)
}

impl SortOrder for CatalogItemDto {
    open spec fn sorts_before(&self, other: &Self) -> bool {
        item_dto_lt(item_dto_view(*self), item_dto_view(*other))
    }

    fn before(&self, other: &Self) -> (b: bool) {
        str_lt(self.key.as_str(), other.key.as_str())
    }
}

/// The catalog's items with their names, in id order.
pub open spec fn catalog_item_views(c: Catalog) -> Seq<(Seq<char>, Seq<char>, Seq<char>)> {
    c.spec_items().map_values(|d: crate::catalog::ItemDef| (d.key@, d.en@, d.zh@))
}

/// The catalog's items, sorted by key.
pub fn catalog_items(catalog: &Catalog) -> (r: Vec<CatalogItemDto>)
    ensures
        r@.map_values(|d: CatalogItemDto| item_dto_view(d)) == sort_stable_by(
            catalog_item_views(*catalog),
            |a: (Seq<char>, Seq<char>, Seq<char>), b: (Seq<char>, Seq<char>, Seq<char>)| item_dto_lt(a, b),
        ),
{
    let items = catalog.items();
    let mut v: Vec<CatalogItemDto> = Vec::new();
    let mut i: usize = 0;
    while i < items.len()
        invariant
            i <= items@.len(),
            items@ == catalog.spec_items(),
            v@.len() == i,
            v@.map_values(|d: CatalogItemDto| item_dto_view(d)) == catalog_item_views(*catalog).take(i as int),
        decreases items@.len() - i,
    {
        let d = &items[i];
        let ghost before = v@;
        v.push(
            CatalogItemDto {
                key: string_of(d.key.as_str()),
                en: string_of(d.en.as_str()),
                zh: string_of(d.zh.as_str()),
            },
        );
        proof {
            let w = v@.map_values(|d: CatalogItemDto| item_dto_view(d));
            let target = catalog_item_views(*catalog).take(i + 1);
            let prev = before.map_values(|d: CatalogItemDto| item_dto_view(d));
            assert forall|j: int| 0 <= j < i + 1 implies w[j] == target[j] by {
                if j < i {
                    assert(v@[j] == before[j]);
                    assert(prev[j] == catalog_item_views(*catalog).take(i as int)[j]);
                } else {
                    assert(v@[j].key@ == d.key@);
                }
            }
            assert(w =~= target);
        }
        i = i + 1;
    }
    proof {
        assert(catalog_item_views(*catalog).take(i as int) =~= catalog_item_views(*catalog));
        lemma_sort_stable_view(
            v@,
            |d: CatalogItemDto| item_dto_view(d),
            |a: (Seq<char>, Seq<char>, Seq<char>), b: (Seq<char>, Seq<char>, Seq<char>)| item_dto_lt(a, b),
        );
    }
    let ghost unsorted = v@;
    let r = sort_by_order(v);
    proof {
        lemma_sort_stable_view(
            unsorted,
            |d: CatalogItemDto| item_dto_view(d),
            |a: (Seq<char>, Seq<char>, Seq<char>), b: (Seq<char>, Seq<char>, Seq<char>)| item_dto_lt(a, b),
        );
    }
    r
}

/// The catalog as the page lists it.
#[derive(Debug)]
pub struct CatalogDto {
    pub items: Vec<CatalogItemDto>,
}

/// What the page loads first: the catalog's items and the default scenario
/// text.
#[derive(Debug)]
pub struct BootstrapPayload {
    pub default_aic_toml: String,
    pub catalog: CatalogDto,
}

/// The first payload for a catalog and a default scenario text: the text
/// as given, and the catalog's items sorted by key.
pub fn bootstrap_payload(catalog: &Catalog, default_aic_toml: String) -> (p: BootstrapPayload)
    ensures
        p.default_aic_toml@ == default_aic_toml@,
        p.catalog.items@.map_values(|d: CatalogItemDto| item_dto_view(d)) == sort_stable_by(
            catalog_item_views(*catalog),
            |a: (Seq<char>, Seq<char>, Seq<char>), b: (Seq<char>, Seq<char>, Seq<char>)| item_dto_lt(a, b),
        ),
{
    let items = catalog_items(catalog);
    BootstrapPayload { default_aic_toml, catalog: CatalogDto { items } }
}

// ---------------------------------------------------------------------------
// Logistics graph
// ---------------------------------------------------------------------------

/// The id of a node as the page knows it: `n` and its number.
pub open spec fn spec_node_id(node: LogisticsNodeId) -> Seq<char> {
    "n"@ + decimal(node.raw() as nat)
}

/// The id of a node as the page knows it.
pub fn logistics_node_id(node: LogisticsNodeId) -> (s: String)
    ensures
        s@ == spec_node_id(node),
{
    let mut s = string_of("n");
    push_decimal(&mut s, node.as_u32() as u64);
    s
}

/// The count recorded for a key in a lookup table (its first entry), or 1.
pub open spec fn count_or_one<K>(table: Seq<(K, u32)>, key: K) -> u32
    decreases table.len(),
{
    if table.len() == 0 {
        1
    } else if table[0].0 == key {
        table[0].1
    } else {
        count_or_one(table.drop_first(), key)
    }
}

fn lookup_recipe(table: &Vec<(RecipeId, u32)>, key: RecipeId) -> (r: u32)
    ensures
        r == count_or_one(table@, key),
{
    let mut i: usize = 0;
    assert(table@.skip(0) =~= table@);
    while i < table.len()
        invariant
            i <= table@.len(),
            count_or_one(table@, key) == count_or_one(table@.skip(i as int), key),
        decreases table@.len() - i,
    {
        assert(table@.skip(i as int)[0] == table@[i as int]);
        assert(table@.skip(i as int).drop_first() =~= table@.skip(i + 1));
        if table[i].0 == key {
            return table[i].1;
        }
        i = i + 1;
    }
    1
}

fn lookup_power_recipe(table: &Vec<(PowerRecipeId, u32)>, key: PowerRecipeId) -> (r: u32)
    ensures
        r == count_or_one(table@, key),
{
    let mut i: usize = 0;
    assert(table@.skip(0) =~= table@);
    while i < table.len()
        invariant
            i <= table@.len(),
            count_or_one(table@, key) == count_or_one(table@.skip(i as int), key),
        decreases table@.len() - i,
    {
        assert(table@.skip(i as int)[0] == table@[i as int]);
        assert(table@.skip(i as int).drop_first() =~= table@.skip(i + 1));
        if table[i].0 == key {
            return table[i].1;
        }
        i = i + 1;
    }
    1
}

/// An item's name in a language, when the catalog has the item.
pub open spec fn web_item_name(lang: Lang, c: Catalog, item: ItemId) -> Option<Seq<char>> {
    if item.raw() < c.spec_items().len() {
        Some(
            match lang {
                Lang::Zh => c.spec_items()[item.raw() as int].zh@,
                Lang::En => c.spec_items()[item.raw() as int].en@,
            },
        )
    } else {
        None
    }
}

fn item_name<'a>(lang: Lang, catalog: &'a Catalog, item: ItemId) -> (r: Result<&'a str, WebError>)
    ensures
        match r {
            Ok(s) => web_item_name(lang, *catalog, item) == Some(s@),
            Err(e) => web_item_name(lang, *catalog, item) is None && e == WebError::MissingItem(item.raw()),
        },
{
    match catalog.item(item) {
        Some(d) => Ok(
            match lang {
                Lang::Zh => d.zh.as_str(),
                Lang::En => d.en.as_str(),
            },
        ),
        None => Err(WebError::MissingItem(item.as_u32())),
    }
}

/// The kind and label of a logistics node's place, or what it refers to
/// that is missing. Recipe groups show their machine count and thermal bank
/// groups their bank count (1 when the plan records none).
pub open spec fn spec_site_label(
    lang: Lang,
    c: Catalog,
    inputs: AicInputs,
    site: LogisticsNodeSite,
    recipe_machines: Seq<(RecipeId, u32)>,
    thermal_banks: Seq<(PowerRecipeId, u32)>,
) -> Result<(Seq<char>, Seq<char>), WebError> {
    match site {
        LogisticsNodeSite::ExternalSupply { item } => match web_item_name(lang, c, item) {
            Some(n) => Ok(("external_supply"@, match lang {
                Lang::Zh => "外部供给 ("@ + n + ")"@,
                Lang::En => "External supply ("@ + n + ")"@,
            })),
            None => Err(WebError::MissingItem(item.raw())),
        },
        LogisticsNodeSite::ExternalConsumption { item } => match web_item_name(lang, c, item) {
            Some(n) => Ok(("external_consumption"@, match lang {
                Lang::Zh => "外部消耗 ("@ + n + ")"@,
                Lang::En => "External consumption ("@ + n + ")"@,
            })),
            None => Err(WebError::MissingItem(item.raw())),
        },
        LogisticsNodeSite::RecipeGroup { recipe_index } => if recipe_index.raw() < c.spec_recipes().len() {
            let f = c.spec_recipes()[recipe_index.raw() as int].facility;
            if f.raw() < c.spec_facilities().len() {
                let d = c.spec_facilities()[f.raw() as int];
                let n = match lang {
                    Lang::Zh => d.zh@,
                    Lang::En => d.en@,
                };
                Ok(("recipe_group"@, n + " x"@ + decimal(count_or_one(recipe_machines, recipe_index) as nat)))
            } else {
                Err(WebError::MissingFacility(f.raw()))
            }
        } else {
            Err(WebError::MissingRecipe(recipe_index.raw()))
        },
        LogisticsNodeSite::OutpostSale { outpost_index, item } => if outpost_index.raw()
            < inputs.spec_outposts().len() {
            let o = inputs.spec_outposts()[outpost_index.raw() as int];
            let on = spec_outpost_name(
                match lang {
                    Lang::Zh => crate::report::Lang::Zh,
                    Lang::En => crate::report::Lang::En,
                },
                o,
            );
            match web_item_name(lang, c, item) {
                Some(n) => Ok(("outpost_sale"@, match lang {
                    Lang::Zh => on + " 出售 ("@ + n + ")"@,
                    Lang::En => on + " sale ("@ + n + ")"@,
                })),
                None => Err(WebError::MissingItem(item.raw())),
            }
        } else {
            Err(WebError::MissingOutpost(outpost_index.raw()))
        },
        LogisticsNodeSite::ThermalBankGroup { power_recipe_index, .. } => Ok(("thermal_bank_group"@, match lang {
            Lang::Zh => "热能池 x"@ + decimal(count_or_one(thermal_banks, power_recipe_index) as nat),
            Lang::En => "Thermal bank x"@ + decimal(count_or_one(thermal_banks, power_recipe_index) as nat),
        })),
        LogisticsNodeSite::WarehouseStockpile { .. } => Ok(("warehouse_stockpile"@, match lang {
            Lang::Zh => "囤到仓库"@,
            Lang::En => "Stockpile to warehouse"@,
        })),
    }
}

/// The count of a table's first entry for `key` is the one looked up.
proof fn lemma_count_or_one_first<K>(table: Seq<(K, u32)>, key: K, k: int)
    requires
        0 <= k < table.len(),
        table[k].0 == key,
        forall|j: int| 0 <= j < k ==> (#[trigger] table[j]).0 != key,
    ensures
        count_or_one(table, key) == table[k].1,
    decreases k,
{
    if k > 0 {
        let t = table.drop_first();
        assert(table[0].0 != key);
        assert forall|j: int| 0 <= j < k - 1 implies (#[trigger] t[j]).0 != key by {
            assert(t[j] == table[j + 1]);
        }
        assert(t[k - 1] == table[k]);
        lemma_count_or_one_first(t, key, k - 1);
    }
}

/// A key that no entry of the table has is looked up as 1.
proof fn lemma_count_or_one_absent<K>(table: Seq<(K, u32)>, key: K)
    requires
        forall|j: int| 0 <= j < table.len() ==> (#[trigger] table[j]).0 != key,
    ensures
        count_or_one(table, key) == 1,
    decreases table.len(),
{
    if table.len() > 0 {
        let t = table.drop_first();
        assert(table[0].0 != key);
        assert forall|j: int| 0 <= j < t.len() implies (#[trigger] t[j]).0 != key by {
            assert(t[j] == table[j + 1]);
        }
        lemma_count_or_one_absent(t, key);
    }
}

/// A thermal bank group's node is labelled with the number of banks that
/// `thermal_banks` records for its power recipe (its first entry for it),
/// after "Thermal bank x" ("热能池 x" in Chinese), and with 1 only when the
/// table records none. A recipe group's label likewise ends with the machine
/// count that `recipe_machines` records for its recipe, or 1.
pub proof fn law_group_labels_show_recorded_counts(
    lang: Lang,
    c: Catalog,
    inputs: AicInputs,
    power_recipe_index: PowerRecipeId,
    item: ItemId,
    recipe_index: RecipeId,
    recipe_machines: Seq<(RecipeId, u32)>,
    thermal_banks: Seq<(PowerRecipeId, u32)>,
)
    ensures
        forall|k: int|
            0 <= k < thermal_banks.len() && (#[trigger] thermal_banks[k]).0 == power_recipe_index && (forall|j: int|
                0 <= j < k ==> thermal_banks[j].0 != power_recipe_index) ==> spec_site_label(
                lang,
                c,
                inputs,
                LogisticsNodeSite::ThermalBankGroup { power_recipe_index, item },
                recipe_machines,
                thermal_banks,
            ) == Ok::<(Seq<char>, Seq<char>), WebError>(
                (
                    "thermal_bank_group"@,
                    match lang {
                        Lang::Zh => "热能池 x"@,
                        Lang::En => "Thermal bank x"@,
                    } + decimal(thermal_banks[k].1 as nat),
                ),
            ),
        (forall|j: int| 0 <= j < thermal_banks.len() ==> (#[trigger] thermal_banks[j]).0 != power_recipe_index)
            ==> spec_site_label(
            lang,
            c,
            inputs,
            LogisticsNodeSite::ThermalBankGroup { power_recipe_index, item },
            recipe_machines,
            thermal_banks,
        ) == Ok::<(Seq<char>, Seq<char>), WebError>(
            (
                "thermal_bank_group"@,
                match lang {
                    Lang::Zh => "热能池 x"@,
                    Lang::En => "Thermal bank x"@,
                } + decimal(1),
            ),
        ),
        forall|k: int|
            0 <= k < recipe_machines.len() && (#[trigger] recipe_machines[k]).0 == recipe_index && (forall|j: int|
                0 <= j < k ==> recipe_machines[j].0 != recipe_index) && recipe_index.raw() < c.spec_recipes().len()
                && c.spec_recipes()[recipe_index.raw() as int].facility.raw() < c.spec_facilities().len()
                ==> spec_site_label(
                lang,
                c,
                inputs,
                LogisticsNodeSite::RecipeGroup { recipe_index },
                recipe_machines,
                thermal_banks,
            ) == Ok::<(Seq<char>, Seq<char>), WebError>(
                (
                    "recipe_group"@,
                    match lang {
                        Lang::Zh => c.spec_facilities()[c.spec_recipes()[recipe_index.raw() as int].facility.raw() as int].zh@,
                        Lang::En => c.spec_facilities()[c.spec_recipes()[recipe_index.raw() as int].facility.raw() as int].en@,
                    } + " x"@ + decimal(recipe_machines[k].1 as nat),
                ),
            ),
{
    assert forall|k: int|
        0 <= k < thermal_banks.len() && (#[trigger] thermal_banks[k]).0 == power_recipe_index && (forall|j: int|
            0 <= j < k ==> thermal_banks[j].0 != power_recipe_index) implies count_or_one(
        thermal_banks,
        power_recipe_index,
    ) == thermal_banks[k].1 by {
        lemma_count_or_one_first(thermal_banks, power_recipe_index, k);
    }
    if forall|j: int| 0 <= j < thermal_banks.len() ==> (#[trigger] thermal_banks[j]).0 != power_recipe_index {
        lemma_count_or_one_absent(thermal_banks, power_recipe_index);
    }
    assert forall|k: int|
        0 <= k < recipe_machines.len() && (#[trigger] recipe_machines[k]).0 == recipe_index && (forall|j: int|
            0 <= j < k ==> recipe_machines[j].0 != recipe_index) implies count_or_one(recipe_machines, recipe_index)
        == recipe_machines[k].1 by {
        lemma_count_or_one_first(recipe_machines, recipe_index, k);
    }
}

fn labeled(kind: &str, prefix: &str, name: &str, suffix: &str) -> (r: (String, String))
    ensures
        r.0@ == kind@,
        r.1@ == prefix@ + name@ + suffix@,
{
    let mut l = string_of(prefix);
    push_str(&mut l, name);
    push_str(&mut l, suffix);
    (string_of(kind), l)
}

/// The kind and label of a logistics node's place (see [`spec_site_label`]).
pub fn describe_logistics_site(
    lang: Lang,
    catalog: &Catalog,
    inputs: &AicInputs,
    site: &LogisticsNodeSite,
    recipe_machines: &Vec<(RecipeId, u32)>,
    thermal_banks: &Vec<(PowerRecipeId, u32)>,
) -> (r: Result<(String, String), WebError>)
    ensures
        match r {
            Ok((kind, label)) => spec_site_label(lang, *catalog, *inputs, *site, recipe_machines@, thermal_banks@)
                matches Ok((k, l)) && k == kind@ && l == label@,
            Err(e) => spec_site_label(lang, *catalog, *inputs, *site, recipe_machines@, thermal_banks@)
                matches Err(e2) && e == e2,
        },
{
    match *site {
        LogisticsNodeSite::ExternalSupply { item } => {
            let n = match item_name(lang, catalog, item) {
                Ok(n) => n,
                Err(e) => return Err(e),
            };
            Ok(
                match lang {
                    Lang::Zh => labeled("external_supply", "外部供给 (", n, ")"),
                    Lang::En => labeled("external_supply", "External supply (", n, ")"),
                },
            )
        },
        LogisticsNodeSite::ExternalConsumption { item } => {
            let n = match item_name(lang, catalog, item) {
                Ok(n) => n,
                Err(e) => return Err(e),
            };
            Ok(
                match lang {
                    Lang::Zh => labeled("external_consumption", "外部消耗 (", n, ")"),
                    Lang::En => labeled("external_consumption", "External consumption (", n, ")"),
                },
            )
        },
        LogisticsNodeSite::RecipeGroup { recipe_index } => {
            let recipe = match catalog.recipe(recipe_index) {
                Some(r) => r,
                None => return Err(WebError::MissingRecipe(recipe_index.as_u32())),
            };
            let facility = match catalog.facility(recipe.facility) {
                Some(f) => f,
                None => return Err(WebError::MissingFacility(recipe.facility.as_u32())),
            };
            let machines = lookup_recipe(recipe_machines, recipe_index);
            let mut l = string_of(
                match lang {
                    Lang::Zh => facility.zh.as_str(),
                    Lang::En => facility.en.as_str(),
                },
            );
            push_str(&mut l, " x");
            push_decimal(&mut l, machines as u64);
            Ok((string_of("recipe_group"), l))
        },
        LogisticsNodeSite::OutpostSale { outpost_index, item } => {
            let outpost = match inputs.outpost(outpost_index) {
                Some(o) => o,
                None => return Err(WebError::MissingOutpost(outpost_index.as_u32())),
            };
            let rl = match lang {
                Lang::Zh => crate::report::Lang::Zh,
                Lang::En => crate::report::Lang::En,
            };
            let on = crate::report::outpost_display_name(rl, outpost);
            let n = match item_name(lang, catalog, item) {
                Ok(n) => n,
                Err(e) => return Err(e),
            };
            let mut l = string_of(on);
            match lang {
                Lang::Zh => push_str(&mut l, " 出售 ("),
                Lang::En => push_str(&mut l, " sale ("),
            }
            push_str(&mut l, n);
            push_str(&mut l, ")");
            Ok((string_of("outpost_sale"), l))
        },
        LogisticsNodeSite::ThermalBankGroup { power_recipe_index, item: _ } => {
            let banks = lookup_power_recipe(thermal_banks, power_recipe_index);
            let mut l = match lang {
                Lang::Zh => string_of("热能池 x"),
                Lang::En => string_of("Thermal bank x"),
            };
            push_decimal(&mut l, banks as u64);
            Ok((string_of("thermal_bank_group"), l))
        },
        LogisticsNodeSite::WarehouseStockpile { item: _ } => Ok(
            (
                string_of("warehouse_stockpile"),
                match lang {
                    Lang::Zh => string_of("囤到仓库"),
                    Lang::En => string_of("Stockpile to warehouse"),
                },
            ),
        ),
    }
}

/// One node of the logistics graph as the page shows it.
#[derive(Debug)]
pub struct LogisticsNodeDto {
    pub id: String,
    pub kind: String,
    pub label: String,
}

/// The view of a shown node: id, kind, label.
pub open spec fn node_dto_view(d: LogisticsNodeDto) -> (Seq<char>, Seq<char>, Seq<char>) {
    (d.id@, d.kind@, d.label@)
}

/// Shown nodes are ordered by their id text (so `n10` before `n2`).
pub open spec fn node_dto_lt(a: (Seq<char>, Seq<char>, Seq<char>), b: (Seq<char>, Seq<char>, Seq<char>)) -> bool {
    chars_lt(a.0, b.0)
}

impl SortOrder for LogisticsNodeDto {
    open spec fn sorts_before(&self, other: &Self) -> bool {
        node_dto_lt(node_dto_view(*self), node_dto_view(*other))
    }

    fn before(&self, other: &Self) -> (b: bool) {
        str_lt(self.id.as_str(), other.id.as_str())
    }
}

/// The shown form of each node, in node order, when every node can be
/// labelled.
pub open spec fn node_views(
    lang: Lang,
    c: Catalog,
    inputs: AicInputs,
    nodes: Seq<LogisticsNode>,
    recipe_machines: Seq<(RecipeId, u32)>,
    thermal_banks: Seq<(PowerRecipeId, u32)>,
) -> Seq<(Seq<char>, Seq<char>, Seq<char>)> {
    nodes.map_values(
        |n: LogisticsNode|
            {
                let l = spec_site_label(lang, c, inputs, n.site, recipe_machines, thermal_banks);
                (spec_node_id(n.id), l->Ok_0.0, l->Ok_0.1)
            },
    )
}

/// The nodes as the page shows them, ordered by id text. Refused with the
/// error of the first node that cannot be labelled.
pub fn graph_nodes(
    lang: Lang,
    catalog: &Catalog,
    inputs: &AicInputs,
    nodes: &[LogisticsNode],
    recipe_machines: &Vec<(RecipeId, u32)>,
    thermal_banks: &Vec<(PowerRecipeId, u32)>,
) -> (r: Result<Vec<LogisticsNodeDto>, WebError>)
    ensures
        r is Ok <==> forall|i: int| 0 <= i < nodes@.len() ==> spec_site_label(lang, *catalog, *inputs, (#[trigger] nodes@[i]).site, recipe_machines@, thermal_banks@) is Ok,
        r matches Ok(v) ==> v@.map_values(|d: LogisticsNodeDto| node_dto_view(d)) == sort_stable_by(
            node_views(lang, *catalog, *inputs, nodes@, recipe_machines@, thermal_banks@),
            |a: (Seq<char>, Seq<char>, Seq<char>), b: (Seq<char>, Seq<char>, Seq<char>)| node_dto_lt(a, b),
        ),
        r matches Err(e) ==> exists|i: int| 0 <= i < nodes@.len() && spec_site_label(lang, *catalog, *inputs, (#[trigger] nodes@[i]).site, recipe_machines@, thermal_banks@) == Err::<(Seq<char>, Seq<char>), WebError>(e),
{
    let ghost views = node_views(lang, *catalog, *inputs, nodes@, recipe_machines@, thermal_banks@);
    let mut v: Vec<LogisticsNodeDto> = Vec::new();
    let mut i: usize = 0;
    while i < nodes.len()
        invariant
            i <= nodes@.len(),
            v@.len() == i,
            views == node_views(lang, *catalog, *inputs, nodes@, recipe_machines@, thermal_banks@),
            forall|j: int| 0 <= j < i ==> spec_site_label(lang, *catalog, *inputs, (#[trigger] nodes@[j]).site, recipe_machines@, thermal_banks@) is Ok,
            forall|j: int| 0 <= j < i ==> node_dto_view(#[trigger] v@[j]) == views[j],
        decreases nodes@.len() - i,
    {
        let n = &nodes[i];
        let (kind, label) = match describe_logistics_site(lang, catalog, inputs, &n.site, recipe_machines, thermal_banks) {
            Ok(kl) => kl,
            Err(e) => return Err(e),
        };
        let id = logistics_node_id(n.id);
        v.push(LogisticsNodeDto { id, kind, label });
        i = i + 1;
    }
    let ghost unsorted = v@;
    proof {
        assert(unsorted.map_values(|d: LogisticsNodeDto| node_dto_view(d)) =~= views);
    }
    let r = sort_by_order(v);
    proof {
        lemma_sort_stable_view(
            unsorted,
            |d: LogisticsNodeDto| node_dto_view(d),
            |a: (Seq<char>, Seq<char>, Seq<char>), b: (Seq<char>, Seq<char>, Seq<char>)| node_dto_lt(a, b),
        );
    }
    Ok(r)
}

/// One edge of the logistics graph as the page shows it, without its flow.
#[derive(Debug)]
pub struct GraphEdgeLabel {
    pub id: String,
    pub item_key: String,
    pub item_name: String,
    pub source: String,
    pub target: String,
}

/// Some node of the list has this id.
pub open spec fn has_node(nodes: Seq<LogisticsNode>, id: LogisticsNodeId) -> bool {
    exists|k: int| 0 <= k < nodes.len() && (#[trigger] nodes[k]).id == id
}

fn node_present(nodes: &[LogisticsNode], id: LogisticsNodeId) -> (b: bool)
    ensures
        b == has_node(nodes@, id),
{
    let mut k: usize = 0;
    while k < nodes.len()
        invariant
            k <= nodes@.len(),
            forall|j: int| 0 <= j < k ==> (#[trigger] nodes@[j]).id != id,
        decreases nodes@.len() - k,
    {
        if nodes[k].id == id {
            return true;
        }
        k = k + 1;
    }
    false
}

/// Why an edge of `item` from `from` to `to` cannot be labelled, if it
/// cannot: the catalog lacks the item, then either node is not in the graph.
pub open spec fn edge_problem(
    c: Catalog,
    nodes: Seq<LogisticsNode>,
    item: ItemId,
    from: LogisticsNodeId,
    to: LogisticsNodeId,
) -> Option<WebError> {
    if item.raw() >= c.spec_items().len() {
        Some(WebError::MissingItem(item.raw()))
    } else if !has_node(nodes, from) {
        Some(WebError::MissingLogisticsNode { item: item.raw(), node: from.raw() })
    } else if !has_node(nodes, to) {
        Some(WebError::MissingLogisticsNode { item: item.raw(), node: to.raw() })
    } else {
        None
    }
}

/// `e` is the label of an edge of `item` from `from` to `to`: its id is
/// `key:from:to` with the item's key and the nodes' numbers.
pub open spec fn edge_label_is(
    lang: Lang,
    c: Catalog,
    item: ItemId,
    from: LogisticsNodeId,
    to: LogisticsNodeId,
    e: GraphEdgeLabel,
) -> bool {
    &&& item.raw() < c.spec_items().len()
    &&& e.item_key@ == c.spec_items()[item.raw() as int].key@
    &&& web_item_name(lang, c, item) == Some(e.item_name@)
    &&& e.id@ == e.item_key@ + ":"@ + decimal(from.raw() as nat) + ":"@ + decimal(to.raw() as nat)
    &&& e.source@ == spec_node_id(from)
    &&& e.target@ == spec_node_id(to)
}

/// Labels an edge of `item` from node `from` to node `to`: its id is
/// `key:from:to` with the item's key and the nodes' numbers. Refused when
/// the catalog lacks the item, then when either node is not in the graph.
pub fn graph_edge(
    lang: Lang,
    catalog: &Catalog,
    nodes: &[LogisticsNode],
    item: ItemId,
    from: LogisticsNodeId,
    to: LogisticsNodeId,
) -> (r: Result<GraphEdgeLabel, WebError>)
    ensures
        match r {
            Ok(e) => edge_problem(*catalog, nodes@, item, from, to) is None && edge_label_is(
                lang,
                *catalog,
                item,
                from,
                to,
                e,
            ),
            Err(e) => edge_problem(*catalog, nodes@, item, from, to) == Some(e),
        },
{
    let d = match catalog.item(item) {
        Some(d) => d,
        None => return Err(WebError::MissingItem(item.as_u32())),
    };
    let item_name = match lang {
        Lang::Zh => d.zh.as_str(),
        Lang::En => d.en.as_str(),
    };
    if !node_present(nodes, from) {
        return Err(WebError::MissingLogisticsNode { item: item.as_u32(), node: from.as_u32() });
    }
    if !node_present(nodes, to) {
        return Err(WebError::MissingLogisticsNode { item: item.as_u32(), node: to.as_u32() });
    }
    let mut id = string_of(d.key.as_str());
    push_str(&mut id, ":");
    push_decimal(&mut id, from.as_u32() as u64);
    push_str(&mut id, ":");
    push_decimal(&mut id, to.as_u32() as u64);
    Ok(
        GraphEdgeLabel {
            id,
            item_key: string_of(d.key.as_str()),
            item_name: string_of(item_name),
            source: logistics_node_id(from),
            target: logistics_node_id(to),
        },
    )
}

/// Labels the edges of the graph, each an item and the nodes it flows
/// from and to, in their order. Refused with the problem of the first edge
/// that cannot be labelled.
pub fn graph_edges(
    lang: Lang,
    catalog: &Catalog,
    nodes: &[LogisticsNode],
    edges: &Vec<(ItemId, LogisticsNodeId, LogisticsNodeId)>,
) -> (r: Result<Vec<GraphEdgeLabel>, WebError>)
    ensures
        match r {
            Ok(v) => {
                &&& v@.len() == edges@.len()
                &&& forall|i: int|
                    0 <= i < edges@.len() ==> edge_problem(
                        *catalog,
                        nodes@,
                        (#[trigger] edges@[i]).0,
                        edges@[i].1,
                        edges@[i].2,
                    ) is None && edge_label_is(lang, *catalog, edges@[i].0, edges@[i].1, edges@[i].2, v@[i])
            },
            Err(e) => exists|i: int|
                0 <= i < edges@.len() && (forall|j: int|
                    0 <= j < i ==> edge_problem(
                        *catalog,
                        nodes@,
                        (#[trigger] edges@[j]).0,
                        edges@[j].1,
                        edges@[j].2,
                    ) is None) && edge_problem(*catalog, nodes@, edges@[i].0, edges@[i].1, edges@[i].2)
                    == Some(e),
        },
{
    let mut v: Vec<GraphEdgeLabel> = Vec::new();
    let mut i: usize = 0;
    while i < edges.len()
        invariant
            i <= edges@.len(),
            v@.len() == i,
            forall|j: int|
                0 <= j < i ==> edge_problem(
                    *catalog,
                    nodes@,
                    (#[trigger] edges@[j]).0,
                    edges@[j].1,
                    edges@[j].2,
                ) is None && edge_label_is(lang, *catalog, edges@[j].0, edges@[j].1, edges@[j].2, v@[j]),
        decreases edges@.len() - i,
    {
        let (item, from, to) = edges[i];
        match graph_edge(lang, catalog, nodes, item, from, to) {
            Ok(label) => v.push(label),
            Err(e) => {
                proof {
                    assert(edges@[i as int] == (item, from, to));
                }
                return Err(e);
            },
        }
        i = i + 1;
    }
    Ok(v)
}

// ---------------------------------------------------------------------------
// Facility usage
// ---------------------------------------------------------------------------

/// How many machines of one facility the plan uses, and their power.
#[derive(Debug)]
pub struct FacilityUsageDto {
    pub key: String,
    pub name: String,
    pub machines: u32,
    pub power_w: u32,
    pub total_power_w: u32,
}

/// Total power of `machines` machines of a facility; the figure must fit in
/// a `u32`.
pub open spec fn usage_power_fits(c: Catalog, u: FacilityMachineCount) -> bool {
    u.facility.raw() < c.spec_facilities().len() ==> c.spec_facilities()[u.facility.raw() as int].power_w * u.machines
        <= u32::MAX
}

/// A usage row shows a facility of the catalog with its machines and power.
pub open spec fn usage_row_ok(lang: Lang, c: Catalog, u: FacilityMachineCount, row: FacilityUsageDto) -> bool {
    &&& u.facility.raw() < c.spec_facilities().len()
    &&& row.key@ == c.spec_facilities()[u.facility.raw() as int].key@
    &&& row.name@ == (match lang {
        Lang::Zh => c.spec_facilities()[u.facility.raw() as int].zh@,
        Lang::En => c.spec_facilities()[u.facility.raw() as int].en@,
    })
    &&& row.machines == u.machines
    &&& row.power_w == c.spec_facilities()[u.facility.raw() as int].power_w
    &&& row.total_power_w == c.spec_facilities()[u.facility.raw() as int].power_w * u.machines
}

/// The facility usage rows, in the order given. Refused with the first
/// facility the catalog lacks.
pub fn facility_usage(lang: Lang, catalog: &Catalog, usages: &Vec<FacilityMachineCount>) -> (r: Result<
    Vec<FacilityUsageDto>,
    WebError,
>)
    requires
        forall|k: int| 0 <= k < usages@.len() ==> usage_power_fits(*catalog, #[trigger] usages@[k]),
    ensures
        match r {
            Ok(v) => {
                &&& v@.len() == usages@.len()
                &&& forall|k: int| 0 <= k < v@.len() ==> usage_row_ok(lang, *catalog, usages@[k], #[trigger] v@[k])
            },
            Err(e) => exists|k: int| 0 <= k < usages@.len() && (#[trigger] usages@[k]).facility.raw()
                >= catalog.spec_facilities().len() && e == WebError::MissingFacility(usages@[k].facility.raw()),
        },
{
    let mut v: Vec<FacilityUsageDto> = Vec::new();
    let mut k: usize = 0;
    while k < usages.len()
        invariant
            k <= usages@.len(),
            v@.len() == k,
            forall|j: int| 0 <= j < usages@.len() ==> usage_power_fits(*catalog, #[trigger] usages@[j]),
            forall|j: int| 0 <= j < k ==> usage_row_ok(lang, *catalog, usages@[j], #[trigger] v@[j]),
        decreases usages@.len() - k,
    {
        let u = usages[k];
        let d = match catalog.facility(u.facility) {
            Some(d) => d,
            None => return Err(WebError::MissingFacility(u.facility.as_u32())),
        };
        assert(usage_power_fits(*catalog, usages@[k as int]));
        let total = d.power_w * u.machines;
        v.push(
            FacilityUsageDto {
                key: string_of(d.key.as_str()),
                name: string_of(
                    match lang {
                        Lang::Zh => d.zh.as_str(),
                        Lang::En => d.en.as_str(),
                    },
                ),
                machines: u.machines,
                power_w: d.power_w,
                total_power_w: total,
            },
        );
        k = k + 1;
    }
    Ok(v)
}

// ---------------------------------------------------------------------------
// Sales order
// ---------------------------------------------------------------------------

/// Where a sale line stands: its outpost and item keys, and its position in
/// the plan.
#[derive(Debug)]
pub struct SaleKey {
    pub outpost_key: String,
    pub item_key: String,
    pub index: usize,
}

/// The view of a sale line's place.
pub open spec fn sale_key_view(k: SaleKey) -> (Seq<char>, Seq<char>, usize) {
    (k.outpost_key@, k.item_key@, k.index)
}

/// Sale lines are shown by outpost key, then item key.
pub open spec fn sale_key_lt(a: (Seq<char>, Seq<char>, usize), b: (Seq<char>, Seq<char>, usize)) -> bool {
    chars_lt(a.0, b.0) || (a.0 == b.0 && chars_lt(a.1, b.1))
}

impl SortOrder for SaleKey {
    open spec fn sorts_before(&self, other: &Self) -> bool {
        sale_key_lt(sale_key_view(*self), sale_key_view(*other))
    }

    fn before(&self, other: &Self) -> (b: bool) {
        if str_lt(self.outpost_key.as_str(), other.outpost_key.as_str()) {
            return true;
        }
        str_eq(self.outpost_key.as_str(), other.outpost_key.as_str()) && str_lt(
            self.item_key.as_str(),
            other.item_key.as_str(),
        )
    }
}

/// Orders sale lines by outpost key, then item key; lines with equal keys
/// keep their order.
pub fn sort_sales(keys: Vec<SaleKey>) -> (r: Vec<SaleKey>)
    ensures
        r@.map_values(|k: SaleKey| sale_key_view(k)) == sort_stable_by(
            keys@.map_values(|k: SaleKey| sale_key_view(k)),
            |a: (Seq<char>, Seq<char>, usize), b: (Seq<char>, Seq<char>, usize)| sale_key_lt(a, b),
        ),
{
    let ghost orig = keys@;
    let r = sort_by_order(keys);
    proof {
        lemma_sort_stable_view(
            orig,
            |k: SaleKey| sale_key_view(k),
            |a: (Seq<char>, Seq<char>, usize), b: (Seq<char>, Seq<char>, usize)| sale_key_lt(a, b),
        );
    }
    r
}

// ---------------------------------------------------------------------------
// Per-item summary of the logistics graph
// ---------------------------------------------------------------------------

/// Numbers in strictly ascending order.
pub open spec fn ascending_u32(s: Seq<u32>) -> bool {
    forall|a: int, b: int| 0 <= a < b < s.len() ==> #[trigger] s[a] < #[trigger] s[b]
}

fn insert_u32(v: &mut Vec<u32>, x: u32)
    requires
        ascending_u32(old(v)@),
    ensures
        ascending_u32(final(v)@),
        forall|y: u32| #[trigger] final(v)@.contains(y) <==> (y == x || old(v)@.contains(y)),
{
    let mut i: usize = 0;
    while i < v.len() && v[i] < x
        invariant
            i <= v@.len(),
            v@ == old(v)@,
            forall|k: int| 0 <= k < i ==> #[trigger] v@[k] < x,
        decreases v@.len() - i,
    {
        i = i + 1;
    }
    if i < v.len() && v[i] == x {
        return;
    }
    let ghost before = v@;
    v.insert(i, x);
    proof {
        assert forall|a: int, b: int| 0 <= a < b < v@.len() implies #[trigger] v@[a] < #[trigger] v@[b] by {
            if b < i {
                assert(v@[a] == before[a] && v@[b] == before[b]);
            } else if b == i {
                assert(v@[a] == before[a]);
            } else if a == i {
                assert(v@[b] == before[b - 1]);
                if b - 1 > i {
                    assert(before[i as int] < before[b - 1]);
                }
            } else if a < i {
                assert(v@[a] == before[a] && v@[b] == before[b - 1]);
            } else {
                assert(v@[a] == before[a - 1] && v@[b] == before[b - 1]);
            }
        }
        assert forall|y: u32| #[trigger] v@.contains(y) <==> (y == x || before.contains(y)) by {
            if before.contains(y) {
                let k = choose|k: int| 0 <= k < before.len() && before[k] == y;
                if k < i {
                    assert(v@[k] == y);
                } else {
                    assert(v@[k + 1] == y);
                }
            }
            if v@.contains(y) {
                let k = choose|k: int| 0 <= k < v@.len() && v@[k] == y;
                if k < i {
                    assert(before[k] == y);
                } else if k > i {
                    assert(before[k - 1] == y);
                }
            }
            assert(v@[i as int] == x);
        }
    }
}

/// Number of edges of `item`.
pub open spec fn edge_count_of(edges: Seq<(ItemId, LogisticsNodeId, LogisticsNodeId)>, item: ItemId) -> nat
    decreases edges.len(),
{
    if edges.len() == 0 {
        0
    } else {
        edge_count_of(edges.drop_last(), item) + if edges.last().0 == item {
            1nat
        } else {
            0nat
        }
    }
}

/// Node `n` is an end of some edge of `item`.
pub open spec fn item_touches_node(edges: Seq<(ItemId, LogisticsNodeId, LogisticsNodeId)>, item: ItemId, n: u32) -> bool {
    exists|k: int|
        0 <= k < edges.len() && (#[trigger] edges[k]).0 == item && (edges[k].1.raw() == n || edges[k].2.raw() == n)
}

/// Some edge is of `item`.
pub open spec fn edges_have_item(edges: Seq<(ItemId, LogisticsNodeId, LogisticsNodeId)>, item: ItemId) -> bool {
    exists|k: int| 0 <= k < edges.len() && (#[trigger] edges[k]).0 == item
}

/// The summary of one item's part of the logistics graph.
#[derive(Debug)]
pub struct ItemSummaryRow {
    pub item: ItemId,
    pub item_key: String,
    pub item_name: String,
    pub edge_count: usize,
    /// The nodes the item's edges touch, ascending.
    pub node_ids: Vec<u32>,
}

fn item_stats(edges: &Vec<(ItemId, LogisticsNodeId, LogisticsNodeId)>, item: ItemId) -> (r: (usize, Vec<u32>))
    ensures
        r.0 == edge_count_of(edges@, item),
        ascending_u32(r.1@),
        forall|n: u32| #[trigger] r.1@.contains(n) <==> item_touches_node(edges@, item, n),
{
    let mut count: usize = 0;
    let mut nodes: Vec<u32> = Vec::new();
    let mut k: usize = 0;
    while k < edges.len()
        invariant
            k <= edges@.len(),
            count == edge_count_of(edges@.take(k as int), item),
            count <= k,
            ascending_u32(nodes@),
            forall|n: u32| #[trigger] nodes@.contains(n) <==> item_touches_node(edges@.take(k as int), item, n),
        decreases edges@.len() - k,
    {
        let e = edges[k];
        proof {
            let t = edges@.take(k + 1);
            assert(t.drop_last() =~= edges@.take(k as int));
            assert(t.last() == e);
        }
        let ghost before = nodes@;
        if e.0 == item {
            count = count + 1;
            insert_u32(&mut nodes, e.1.as_u32());
            insert_u32(&mut nodes, e.2.as_u32());
        }
        proof {
            let t = edges@.take(k + 1);
            let p = edges@.take(k as int);
            assert forall|n: u32| #[trigger] nodes@.contains(n) <==> item_touches_node(t, item, n) by {
                if item_touches_node(p, item, n) {
                    let j = choose|j: int| 0 <= j < p.len() && (#[trigger] p[j]).0 == item && (p[j].1.raw() == n || p[j].2.raw() == n);
                    assert(t[j] == p[j]);
                }
                if item_touches_node(t, item, n) {
                    let j = choose|j: int| 0 <= j < t.len() && (#[trigger] t[j]).0 == item && (t[j].1.raw() == n || t[j].2.raw() == n);
                    if j < k {
                        assert(p[j] == t[j]);
                    }
                }
                assert(t[k as int] == e);
            }
        }
        k = k + 1;
    }
    proof {
        assert(edges@.take(k as int) =~= edges@);
    }
    (count, nodes)
}

/// The items of the graph's edges, once each, with their edge counts and
/// touched nodes, ordered by item key. Refused when the catalog lacks an
/// edge's item.
pub fn item_summaries(lang: Lang, catalog: &Catalog, edges: &Vec<(ItemId, LogisticsNodeId, LogisticsNodeId)>) -> (r: Result<
    Vec<ItemSummaryRow>,
    WebError,
>)
    ensures
        match r {
            Ok(rows) => {
                &&& forall|i: ItemId| edges_have_item(edges@, i) <==> exists|k: int| 0 <= k < rows@.len() && (#[trigger] rows@[k]).item == i
                &&& forall|a: int, b: int| 0 <= a < b < rows@.len() ==> chars_lt((#[trigger] rows@[a]).item_key@, (#[trigger] rows@[b]).item_key@)
                &&& forall|k: int| 0 <= k < rows@.len() ==> {
                    &&& (#[trigger] rows@[k]).item.raw() < catalog.spec_items().len()
                    &&& rows@[k].item_key@ == catalog.spec_items()[rows@[k].item.raw() as int].key@
                    &&& web_item_name(lang, *catalog, rows@[k].item) == Some(rows@[k].item_name@)
                    &&& rows@[k].edge_count == edge_count_of(edges@, rows@[k].item)
                    &&& ascending_u32(rows@[k].node_ids@)
                    &&& forall|n: u32| #[trigger] rows@[k].node_ids@.contains(n) <==> item_touches_node(edges@, rows@[k].item, n)
                }
            },
            Err(e) => exists|k: int| 0 <= k < edges@.len() && (#[trigger] edges@[k]).0.raw() >= catalog.spec_items().len()
                && e == WebError::MissingItem(edges@[k].0.raw()),
        },
{
    catalog.well_formed();
    let mut rows: Vec<ItemSummaryRow> = Vec::new();
    let mut k: usize = 0;
    while k < edges.len()
        invariant
            k <= edges@.len(),
            crate::catalog::item_keys_distinct(catalog.spec_items()),
            forall|i: ItemId| edges_have_item(edges@.take(k as int), i) <==> exists|j: int| 0 <= j < rows@.len() && (#[trigger] rows@[j]).item == i,
            forall|a: int, b: int| 0 <= a < b < rows@.len() ==> chars_lt((#[trigger] rows@[a]).item_key@, (#[trigger] rows@[b]).item_key@),
            forall|j: int| 0 <= j < rows@.len() ==> {
                &&& (#[trigger] rows@[j]).item.raw() < catalog.spec_items().len()
                &&& rows@[j].item_key@ == catalog.spec_items()[rows@[j].item.raw() as int].key@
                &&& web_item_name(lang, *catalog, rows@[j].item) == Some(rows@[j].item_name@)
                &&& rows@[j].edge_count == edge_count_of(edges@, rows@[j].item)
                &&& ascending_u32(rows@[j].node_ids@)
                &&& forall|n: u32| #[trigger] rows@[j].node_ids@.contains(n) <==> item_touches_node(edges@, rows@[j].item, n)
            },
        decreases edges@.len() - k,
    {
        let item = edges[k].0;
        let ghost t = edges@.take(k + 1);
        let ghost p = edges@.take(k as int);
        proof {
            assert(t[k as int] == edges@[k as int]);
            assert forall|i: ItemId| edges_have_item(t, i) <==> (edges_have_item(p, i) || i == item) by {
                if edges_have_item(p, i) {
                    let j = choose|j: int| 0 <= j < p.len() && (#[trigger] p[j]).0 == i;
                    assert(t[j] == p[j]);
                }
                if edges_have_item(t, i) {
                    let j = choose|j: int| 0 <= j < t.len() && (#[trigger] t[j]).0 == i;
                    if j < k {
                        assert(p[j] == t[j]);
                    }
                }
            }
        }
        // Already summarized?
        let mut j: usize = 0;
        let mut found = false;
        while j < rows.len()
            invariant
                j <= rows@.len(),
                !found ==> forall|x: int| 0 <= x < j ==> (#[trigger] rows@[x]).item != item,
                found ==> exists|x: int| 0 <= x < rows@.len() && (#[trigger] rows@[x]).item == item,
            decreases rows@.len() - j,
        {
            if rows[j].item == item {
                found = true;
            }
            j = j + 1;
        }
        if !found {
            let d = match catalog.item(item) {
                Some(d) => d,
                None => return Err(WebError::MissingItem(item.as_u32())),
            };
            let (edge_count, node_ids) = item_stats(edges, item);
            let row = ItemSummaryRow {
                item,
                item_key: string_of(d.key.as_str()),
                item_name: string_of(
                    match lang {
                        Lang::Zh => d.zh.as_str(),
                        Lang::En => d.en.as_str(),
                    },
                ),
                edge_count,
                node_ids,
            };
            // Insert by key.
            let mut pos: usize = 0;
            while pos < rows.len() && str_lt(rows[pos].item_key.as_str(), row.item_key.as_str())
                invariant
                    pos <= rows@.len(),
                    forall|x: int| 0 <= x < pos ==> chars_lt((#[trigger] rows@[x]).item_key@, row.item_key@),
                decreases rows@.len() - pos,
            {
                pos = pos + 1;
            }
            proof {
                if pos < rows.len() {
                    let other = rows@[pos as int];
                    lemma_chars_lt_total(other.item_key@, row.item_key@);
                    if other.item_key@ == row.item_key@ {
                        let a = other.item.raw() as int;
                        let b = item.raw() as int;
                        if a != b {
                            if a < b {
                                assert(catalog.spec_items()[a].key@ != catalog.spec_items()[b].key@);
                            } else {
                                assert(catalog.spec_items()[b].key@ != catalog.spec_items()[a].key@);
                            }
                        }
                        other.item.lemma_raw_injective(item);
                    }
                }
            }
            let ghost before = rows@;
            let ghost rv = row;
            rows.insert(pos, row);
            proof {
                assert forall|a: int, b: int| 0 <= a < b < rows@.len() implies chars_lt((#[trigger] rows@[a]).item_key@, (#[trigger] rows@[b]).item_key@) by {
                    if b < pos {
                        assert(rows@[a] == before[a] && rows@[b] == before[b]);
                    } else if b == pos {
                        assert(rows@[a] == before[a]);
                    } else if a == pos {
                        assert(rows@[b] == before[b - 1]);
                        if b - 1 > pos {
                            lemma_chars_lt_transitive(rv.item_key@, before[pos as int].item_key@, before[b - 1].item_key@);
                        }
                    } else if a < pos {
                        assert(rows@[a] == before[a] && rows@[b] == before[b - 1]);
                    } else {
                        assert(rows@[a] == before[a - 1] && rows@[b] == before[b - 1]);
                    }
                }
                assert forall|x: int| 0 <= x < rows@.len() implies {
                    &&& (#[trigger] rows@[x]).item.raw() < catalog.spec_items().len()
                    &&& rows@[x].item_key@ == catalog.spec_items()[rows@[x].item.raw() as int].key@
                    &&& web_item_name(lang, *catalog, rows@[x].item) == Some(rows@[x].item_name@)
                    &&& rows@[x].edge_count == edge_count_of(edges@, rows@[x].item)
                    &&& ascending_u32(rows@[x].node_ids@)
                    &&& forall|n: u32| #[trigger] rows@[x].node_ids@.contains(n) <==> item_touches_node(edges@, rows@[x].item, n)
                } by {
                    if x < pos {
                        assert(rows@[x] == before[x]);
                    } else if x > pos {
                        assert(rows@[x] == before[x - 1]);
                    }
                }
                assert forall|i: ItemId| edges_have_item(t, i) <==> exists|y: int| 0 <= y < rows@.len() && (#[trigger] rows@[y]).item == i by {
                    if exists|y: int| 0 <= y < before.len() && (#[trigger] before[y]).item == i {
                        let y = choose|y: int| 0 <= y < before.len() && (#[trigger] before[y]).item == i;
                        if y < pos {
                            assert(rows@[y] == before[y]);
                        } else {
                            assert(rows@[y + 1] == before[y]);
                        }
                    }
                    if exists|y: int| 0 <= y < rows@.len() && (#[trigger] rows@[y]).item == i {
                        let y = choose|y: int| 0 <= y < rows@.len() && (#[trigger] rows@[y]).item == i;
                        if y < pos {
                            assert(before[y] == rows@[y]);
                        } else if y > pos {
                            assert(before[y - 1] == rows@[y]);
                        }
                    }
                    assert(rows@[pos as int].item == item);
                }
            }
        }
        k = k + 1;
    }
    proof {
        assert(edges@.take(k as int) =~= edges@);
    }
    Ok(rows)
}

} // verus!
