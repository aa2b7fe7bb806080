//! Texts of the plan report: display names, recipe labels, logistics
//! endpoints and machine ranges, in Chinese or English, with optional
//! terminal colours.
//!
//! The report's figures per minute are fractional and are formatted outside
//! this library; the texts around them are built here.

use vstd::prelude::*;

use crate::aic::{AicInputs, OutpostId, OutpostInput};
use crate::catalog::{Catalog, FacilityId, ItemId, Stack};
use crate::logistics::{LogisticsNodeId, LogisticsNodeSite};
use crate::strings::{chars_lt, decimal, push_decimal, push_str, str_eq, str_lt, string_of};

verus! {

/// Language of a report.
#[derive(Debug, Clone, Copy, PartialEq, Eq, Structural)]
pub enum Lang {
    Zh,
    En,
}

/// The text of a language among two.
pub open spec fn spec_t(lang: Lang, zh: Seq<char>, en: Seq<char>) -> Seq<char> {
    match lang {
        Lang::Zh => zh,
        Lang::En => en,
    }
}

/// Picks the Chinese or the English text.
pub fn t<'a>(lang: Lang, zh: &'a str, en: &'a str) -> (s: &'a str)
    ensures
        s@ == spec_t(lang, zh@, en@),
{
    match lang {
        Lang::Zh => zh,
        Lang::En => en,
    }
}

/// A report refers to something that the catalog or the scenario lacks.
#[derive(Debug, Clone, Copy, PartialEq, Eq, Structural)]
pub enum ReportError {
    MissingItem(ItemId),
    MissingFacility(FacilityId),
    MissingOutpost(OutpostId),
    MissingRecipe(u32),
    MissingLogisticsNode { item: u32, node: LogisticsNodeId },
}

impl ReportError {
    /// The message that describes this error.
    pub fn message(&self) -> (s: String)
        ensures
            s@ == self.spec_message(),
    {
        match self {
            ReportError::MissingItem(id) => {
                let mut s = string_of("missing item id ");
                push_decimal(&mut s, id.as_u32() as u64);
                s
            },
            ReportError::MissingFacility(id) => {
                let mut s = string_of("missing facility id ");
                push_decimal(&mut s, id.as_u32() as u64);
                s
            },
            ReportError::MissingOutpost(id) => {
                let mut s = string_of("missing outpost index ");
                push_decimal(&mut s, id.as_u32() as u64);
                s
            },
            ReportError::MissingRecipe(i) => {
                let mut s = string_of("missing recipe index ");
                push_decimal(&mut s, *i as u64);
                s
            },
            ReportError::MissingLogisticsNode { item, node } => {
                let mut s = string_of("missing logistics node ");
                push_decimal(&mut s, node.as_u32() as u64);
                push_str(&mut s, " for item id ");
                push_decimal(&mut s, *item as u64);
                s
            },
        }
    }

    pub open spec fn spec_message(&self) -> Seq<char> {
        match self {
            ReportError::MissingItem(id) => "missing item id "@ + decimal(id.raw() as nat),
            ReportError::MissingFacility(id) => "missing facility id "@ + decimal(id.raw() as nat),
            ReportError::MissingOutpost(id) => "missing outpost index "@ + decimal(id.raw() as nat),
            ReportError::MissingRecipe(i) => "missing recipe index "@ + decimal(*i as nat),
            ReportError::MissingLogisticsNode { item, node } => "missing logistics node "@ + decimal(
                node.raw() as nat,
            ) + " for item id "@ + decimal(*item as nat),
        }
    }
}

// ---------------------------------------------------------------------------
// Terminal colours
// ---------------------------------------------------------------------------

/// Terminal colour codes, switched on or off as a whole.
#[derive(Debug, Clone, Copy, PartialEq, Eq, Structural)]
pub struct Ansi {
    pub enabled: bool,
}

/// The escape sequence of a named style; nothing when colours are off, and
/// the reset sequence for an unknown name.
pub open spec fn spec_esc(enabled: bool, code: Seq<char>) -> Seq<char> {
    if !enabled {
        Seq::empty()
    } else if code == "reset"@ {
        "\x1b[0m"@
    } else if code == "dim"@ {
        "\x1b[2m"@
    } else if code == "bold"@ {
        "\x1b[1m"@
    } else if code == "cyan"@ {
        "\x1b[36m"@
    } else if code == "green"@ {
        "\x1b[32m"@
    } else if code == "yellow"@ {
        "\x1b[33m"@
    } else {
        "\x1b[0m"@
    }
}

impl Ansi {
    /// Colours on or off.
    pub fn new(enabled: bool) -> (a: Ansi)
        ensures
            a.enabled == enabled,
    {
        Ansi { enabled }
    }

    /// The escape sequence of a named style.
    pub fn esc(self, code: &str) -> (s: &'static str)
        ensures
            s@ == spec_esc(self.enabled, code@),
    {
        proof {
            reveal_strlit("");
        }
        if !self.enabled {
            return "";
        }
        if str_eq(code, "reset") {
            "\x1b[0m"
        } else if str_eq(code, "dim") {
            "\x1b[2m"
        } else if str_eq(code, "bold") {
            "\x1b[1m"
        } else if str_eq(code, "cyan") {
            "\x1b[36m"
        } else if str_eq(code, "green") {
            "\x1b[32m"
        } else if str_eq(code, "yellow") {
            "\x1b[33m"
        } else {
            "\x1b[0m"
        }
    }

    fn styled(self, first: &str, second: &str, s: &str) -> (out: String)
        ensures
            out@ == spec_esc(self.enabled, first@) + spec_esc(self.enabled, second@) + s@ + spec_esc(
                self.enabled,
                "reset"@,
            ),
    {
        let mut out = string_of(self.esc(first));
        push_str(&mut out, self.esc(second));
        push_str(&mut out, s);
        push_str(&mut out, self.esc("reset"));
        out
    }

    /// A section heading: bold cyan.
    pub fn h(self, s: &str) -> (out: String)
        ensures
            out@ == spec_esc(self.enabled, "bold"@) + spec_esc(self.enabled, "cyan"@) + s@ + spec_esc(
                self.enabled,
                "reset"@,
            ),
    {
        self.styled("bold", "cyan", s)
    }

    /// A good outcome: bold green.
    pub fn good(self, s: &str) -> (out: String)
        ensures
            out@ == spec_esc(self.enabled, "bold"@) + spec_esc(self.enabled, "green"@) + s@ + spec_esc(
                self.enabled,
                "reset"@,
            ),
    {
        self.styled("bold", "green", s)
    }

    /// A warning: bold yellow.
    pub fn warn(self, s: &str) -> (out: String)
        ensures
            out@ == spec_esc(self.enabled, "bold"@) + spec_esc(self.enabled, "yellow"@) + s@
                + spec_esc(self.enabled, "reset"@),
    {
        self.styled("bold", "yellow", s)
    }

    /// A side note: dim.
    pub fn dim(self, s: &str) -> (out: String)
        ensures
            out@ == spec_esc(self.enabled, "dim"@) + s@ + spec_esc(self.enabled, "reset"@),
    {
        let mut out = string_of(self.esc("dim"));
        push_str(&mut out, s);
        push_str(&mut out, self.esc("reset"));
        out
    }
}

// ---------------------------------------------------------------------------
// Display names
// ---------------------------------------------------------------------------

/// An outpost's name in a language: its localized name, else its key.
pub open spec fn spec_outpost_name(lang: Lang, o: OutpostInput) -> Seq<char> {
    let n = match lang {
        Lang::Zh => o.zh,
        Lang::En => o.en,
    };
    match n {
        Some(d) => d@,
        None => o.key@,
    }
}

/// An outpost's name in a language.
pub fn outpost_display_name<'a>(lang: Lang, outpost: &'a OutpostInput) -> (s: &'a str)
    ensures
        s@ == spec_outpost_name(lang, *outpost),
{
    let n = match lang {
        Lang::Zh => &outpost.zh,
        Lang::En => &outpost.en,
    };
    match n {
        Some(d) => d.as_str(),
        None => outpost.key.as_str(),
    }
}

/// An item's name in a language, when the catalog has the item.
pub open spec fn spec_item_name(lang: Lang, catalog: Catalog, item: ItemId) -> Option<Seq<char>> {
    if item.raw() < catalog.spec_items().len() {
        let d = catalog.spec_items()[item.raw() as int];
        Some(
            match lang {
                Lang::Zh => d.zh@,
                Lang::En => d.en@,
            },
        )
    } else {
        None
    }
}

/// An item's name in a language.
pub fn item_display_name<'a>(lang: Lang, catalog: &'a Catalog, item: ItemId) -> (r: Result<
    &'a str,
    ReportError,
>)
    ensures
        match r {
            Ok(s) => spec_item_name(lang, *catalog, item) == Some(s@),
            Err(e) => spec_item_name(lang, *catalog, item) is None && e == ReportError::MissingItem(item),
        },
{
    match catalog.item(item) {
        Some(d) => Ok(
            match lang {
                Lang::Zh => d.zh.as_str(),
                Lang::En => d.en.as_str(),
            },
        ),
        None => Err(ReportError::MissingItem(item)),
    }
}

/// A facility's name in a language, when the catalog has the facility.
pub open spec fn spec_facility_name(lang: Lang, catalog: Catalog, facility: FacilityId) -> Option<
    Seq<char>,
> {
    if facility.raw() < catalog.spec_facilities().len() {
        let d = catalog.spec_facilities()[facility.raw() as int];
        Some(
            match lang {
                Lang::Zh => d.zh@,
                Lang::En => d.en@,
            },
        )
    } else {
        None
    }
}

/// A facility's name in a language.
pub fn facility_display_name<'a>(lang: Lang, catalog: &'a Catalog, facility: FacilityId) -> (r:
    Result<&'a str, ReportError>)
    ensures
        match r {
            Ok(s) => spec_facility_name(lang, *catalog, facility) == Some(s@),
            Err(e) => spec_facility_name(lang, *catalog, facility) is None && e
                == ReportError::MissingFacility(facility),
        },
{
    match catalog.facility(facility) {
        Some(d) => Ok(
            match lang {
                Lang::Zh => d.zh.as_str(),
                Lang::En => d.en.as_str(),
            },
        ),
        None => Err(ReportError::MissingFacility(facility)),
    }
}

// ---------------------------------------------------------------------------
// Recipe labels
// ---------------------------------------------------------------------------

/// Inserts a text after every text it does not sort before (so after equal
/// texts).
pub open spec fn insert_text(s: Seq<Seq<char>>, x: Seq<char>) -> Seq<Seq<char>>
    decreases s.len(),
{
    if s.len() == 0 {
        seq![x]
    } else if !chars_lt(x, s[0]) {
        seq![s[0]] + insert_text(s.drop_first(), x)
    } else {
        seq![x] + s
    }
}

/// Texts in ascending order (by code points, as strings compare).
pub open spec fn sort_texts(s: Seq<Seq<char>>) -> Seq<Seq<char>>
    decreases s.len(),
{
    if s.len() == 0 {
        s
    } else {
        insert_text(sort_texts(s.drop_last()), s.last())
    }
}

/// Texts joined with a separator.
pub open spec fn join_texts(parts: Seq<Seq<char>>, sep: Seq<char>) -> Seq<char>
    decreases parts.len(),
{
    if parts.len() == 0 {
        Seq::empty()
    } else if parts.len() == 1 {
        parts[0]
    } else {
        join_texts(parts.drop_last(), sep) + sep + parts.last()
    }
}

proof fn lemma_insert_text_at(s: Seq<Seq<char>>, x: Seq<char>, i: int)
    requires
        0 <= i <= s.len(),
        forall|j: int| 0 <= j < i ==> !chars_lt(x, #[trigger] s[j]),
        i == s.len() || chars_lt(x, s[i]),
    ensures
        insert_text(s, x) == s.insert(i, x),
    decreases i,
{
    if s.len() == 0 {
        assert(s.insert(i, x) =~= seq![x]);
    } else if i == 0 {
        assert(s.insert(0, x) =~= seq![x] + s);
    } else {
        let rest = s.drop_first();
        assert forall|j: int| 0 <= j < i - 1 implies !chars_lt(x, #[trigger] rest[j]) by {
            assert(rest[j] == s[j + 1]);
        }
        if i < s.len() {
            assert(rest[i - 1] == s[i]);
        }
        lemma_insert_text_at(rest, x, i - 1);
        assert(s.insert(i, x) =~= seq![s[0]] + rest.insert(i - 1, x));
    }
}

/// The views of a list of strings.
pub open spec fn texts_view(v: Seq<String>) -> Seq<Seq<char>> {
    v.map_values(|s: String| s@)
}

fn insert_string_sorted(v: &mut Vec<String>, x: String)
    ensures
        texts_view(final(v)@) == insert_text(texts_view(old(v)@), x@),
{
    let mut i: usize = 0;
    while i < v.len() && !str_lt(x.as_str(), v[i].as_str())
        invariant
            i <= v@.len(),
            v@ == old(v)@,
            forall|j: int| 0 <= j < i ==> !chars_lt(x@, #[trigger] texts_view(v@)[j]),
        decreases v@.len() - i,
    {
        i = i + 1;
    }
    proof {
        lemma_insert_text_at(texts_view(old(v)@), x@, i as int);
    }
    let ghost xv = x@;
    v.insert(i, x);
    proof {
        assert(texts_view(v@) =~= texts_view(old(v)@).insert(i as int, xv));
    }
}

/// Sorts strings in ascending order; equal strings stay together.
pub fn sort_strings(v: Vec<String>) -> (r: Vec<String>)
    ensures
        texts_view(r@) == sort_texts(texts_view(v@)),
{
    let ghost orig = texts_view(v@);
    let mut rest = v;
    let mut stack: Vec<String> = Vec::new();
    while rest.len() > 0
        invariant
            texts_view(rest@) == orig.take(rest@.len() as int),
            stack@.len() + rest@.len() == orig.len(),
            forall|k: int| 0 <= k < stack@.len() ==> #[trigger] stack@[k]@ == orig[orig.len() - 1 - k],
        decreases rest@.len(),
    {
        let ghost before = rest@;
        let x = rest.pop().unwrap();
        proof {
            assert(texts_view(rest@) =~= texts_view(before).take(rest@.len() as int));
            assert(x@ == texts_view(before)[rest@.len() as int]);
        }
        stack.push(x);
    }
    let mut out: Vec<String> = Vec::new();
    while stack.len() > 0
        invariant
            stack@.len() <= orig.len(),
            forall|k: int| 0 <= k < stack@.len() ==> #[trigger] stack@[k]@ == orig[orig.len() - 1 - k],
            texts_view(out@) == sort_texts(orig.take(orig.len() - stack@.len())),
        decreases stack@.len(),
    {
        let ghost m = orig.len() - stack@.len();
        let x = stack.pop().unwrap();
        proof {
            let t = orig.take(m + 1);
            assert(t.drop_last() =~= orig.take(m));
            assert(t.last() == x@);
        }
        insert_string_sorted(&mut out, x);
    }
    proof {
        assert(orig.take(orig.len() as int) =~= orig);
    }
    out
}

/// Joins strings with a separator.
pub fn join_strings(parts: &Vec<String>, sep: &str) -> (s: String)
    ensures
        s@ == join_texts(texts_view(parts@), sep@),
{
    let mut s = String::new();
    let mut i: usize = 0;
    while i < parts.len()
        invariant
            i <= parts@.len(),
            s@ == join_texts(texts_view(parts@).take(i as int), sep@),
        decreases parts@.len() - i,
    {
        proof {
            let t = texts_view(parts@).take(i + 1);
            assert(t.drop_last() =~= texts_view(parts@).take(i as int));
            assert(t.last() == parts@[i as int]@);
        }
        if i > 0 {
            push_str(&mut s, sep);
        } else {
            proof {
                assert(texts_view(parts@).take(1) =~= seq![parts@[0]@]);
            }
        }
        push_str(&mut s, parts[i].as_str());
        i = i + 1;
    }
    proof {
        assert(texts_view(parts@).take(i as int) =~= texts_view(parts@));
    }
    s
}

/// `name x count` for each stack whose item the catalog has, in order;
/// `None` when one is missing.
pub open spec fn stack_texts(lang: Lang, catalog: Catalog, stacks: Seq<Stack>) -> Option<Seq<Seq<char>>>
    decreases stacks.len(),
{
    if stacks.len() == 0 {
        Some(Seq::empty())
    } else {
        match (
            stack_texts(lang, catalog, stacks.drop_last()),
            spec_item_name(lang, catalog, stacks.last().item),
        ) {
            (Some(prev), Some(n)) => Some(prev.push(n + " x"@ + decimal(stacks.last().count as nat))),
            _ => None,
        }
    }
}

/// The first stack whose item the catalog lacks.
pub open spec fn first_missing_item(catalog: Catalog, stacks: Seq<Stack>) -> Option<ItemId>
    decreases stacks.len(),
{
    if stacks.len() == 0 {
        None
    } else {
        match first_missing_item(catalog, stacks.drop_last()) {
            Some(i) => Some(i),
            None => if stacks.last().item.raw() < catalog.spec_items().len() {
                None
            } else {
                Some(stacks.last().item)
            },
        }
    }
}

proof fn lemma_stack_texts_missing(lang: Lang, catalog: Catalog, stacks: Seq<Stack>)
    ensures
        (stack_texts(lang, catalog, stacks) is None) == (first_missing_item(catalog, stacks) is Some),
    decreases stacks.len(),
{
    if stacks.len() > 0 {
        lemma_stack_texts_missing(lang, catalog, stacks.drop_last());
    }
}

proof fn lemma_first_missing_prefix(catalog: Catalog, stacks: Seq<Stack>, n: int)
    requires
        0 <= n <= stacks.len(),
        first_missing_item(catalog, stacks.take(n)) is Some,
    ensures
        first_missing_item(catalog, stacks) == first_missing_item(catalog, stacks.take(n)),
    decreases stacks.len() - n,
{
    if n == stacks.len() {
        assert(stacks.take(n) =~= stacks);
    } else {
        let t = stacks.take(n + 1);
        assert(t.drop_last() =~= stacks.take(n));
        lemma_first_missing_prefix(catalog, stacks, n + 1);
    }
}

fn stack_strings(lang: Lang, catalog: &Catalog, stacks: &[Stack]) -> (r: Result<Vec<String>, ReportError>)
    ensures
        match r {
            Ok(v) => stack_texts(lang, *catalog, stacks@) == Some(texts_view(v@)),
            Err(e) => first_missing_item(*catalog, stacks@) matches Some(i) && e == ReportError::MissingItem(i),
        },
{
    let mut out: Vec<String> = Vec::new();
    let mut i: usize = 0;
    while i < stacks.len()
        invariant
            i <= stacks@.len(),
            stack_texts(lang, *catalog, stacks@.take(i as int)) == Some(texts_view(out@)),
            first_missing_item(*catalog, stacks@.take(i as int)) is None,
        decreases stacks@.len() - i,
    {
        proof {
            let t = stacks@.take(i + 1);
            assert(t.drop_last() =~= stacks@.take(i as int));
            assert(t.last() == stacks@[i as int]);
        }
        let s = stacks[i];
        let name = match item_display_name(lang, catalog, s.item) {
            Ok(n) => n,
            Err(e) => {
                proof {
                    lemma_first_missing_prefix(*catalog, stacks@, i + 1);
                }
                return Err(e);
            },
        };
        let mut text = string_of(name);
        push_str(&mut text, " x");
        push_decimal(&mut text, s.count as u64);
        let ghost tv = text@;
        let ghost before = out@;
        out.push(text);
        proof {
            assert(texts_view(out@) =~= texts_view(before).push(tv));
        }
        i = i + 1;
    }
    proof {
        assert(stacks@.take(i as int) =~= stacks@);
    }
    Ok(out)
}

/// The label of a recipe: `[facility] inputs -> outputs (t=Ns)`, with each
/// side's `name xcount` entries sorted and joined by ` + `, and the time
/// written with three decimals; `None` when a name is missing.
pub open spec fn spec_recipe_label(
    lang: Lang,
    catalog: Catalog,
    facility: FacilityId,
    ingredients: Seq<Stack>,
    products: Seq<Stack>,
    time_s: u32,
) -> Option<Seq<char>> {
    match (
        spec_facility_name(lang, catalog, facility),
        stack_texts(lang, catalog, ingredients),
        stack_texts(lang, catalog, products),
    ) {
        (Some(f), Some(i), Some(p)) => Some(
            "["@ + f + "] "@ + join_texts(sort_texts(i), " + "@) + " -> "@ + join_texts(
                sort_texts(p),
                " + "@,
            ) + " (t="@ + decimal(time_s as nat) + ".000s)"@,
        ),
        _ => None,
    }
}

/// Renders the label of a recipe (see [`spec_recipe_label`]). A missing
/// facility is reported first, then the first missing ingredient, then the
/// first missing product.
pub fn format_recipe_label(
    lang: Lang,
    catalog: &Catalog,
    facility_id: FacilityId,
    ingredients: &[Stack],
    products: &[Stack],
    time_s: u32,
) -> (r: Result<String, ReportError>)
    ensures
        match r {
            Ok(s) => spec_recipe_label(lang, *catalog, facility_id, ingredients@, products@, time_s)
                == Some(s@),
            Err(e) => {
                &&& spec_recipe_label(lang, *catalog, facility_id, ingredients@, products@, time_s) is None
                &&& e == (if spec_facility_name(lang, *catalog, facility_id) is None {
                    ReportError::MissingFacility(facility_id)
                } else if first_missing_item(*catalog, ingredients@) is Some {
                    ReportError::MissingItem(first_missing_item(*catalog, ingredients@).unwrap())
                } else {
                    ReportError::MissingItem(first_missing_item(*catalog, products@).unwrap())
                })
            },
        },
{
    proof {
        lemma_stack_texts_missing(lang, *catalog, ingredients@);
        lemma_stack_texts_missing(lang, *catalog, products@);
    }
    let facility = match facility_display_name(lang, catalog, facility_id) {
        Ok(f) => f,
        Err(e) => return Err(e),
    };
    let input_side = match stack_strings(lang, catalog, ingredients) {
        Ok(v) => v,
        Err(e) => return Err(e),
    };
    let output_side = match stack_strings(lang, catalog, products) {
        Ok(v) => v,
        Err(e) => return Err(e),
    };
    let input_side = sort_strings(input_side);
    let output_side = sort_strings(output_side);
    let mut s = string_of("[");
    push_str(&mut s, facility);
    push_str(&mut s, "] ");
    let ins = join_strings(&input_side, " + ");
    push_str(&mut s, ins.as_str());
    push_str(&mut s, " -> ");
    let outs = join_strings(&output_side, " + ");
    push_str(&mut s, outs.as_str());
    push_str(&mut s, " (t=");
    push_decimal(&mut s, time_s as u64);
    push_str(&mut s, ".000s)");
    Ok(s)
}

// ---------------------------------------------------------------------------
// Logistics endpoints
// ---------------------------------------------------------------------------

/// How one end of a logistics connection is shown.
#[derive(Debug)]
pub struct RenderedEndpoint {
    pub base: String,
    /// Which machine of a group, when the endpoint is one machine.
    pub machine_ordinal: Option<u32>,
}

/// The text of a logistics node's place, or what it refers to that is
/// missing.
pub open spec fn spec_site_text(lang: Lang, inputs: AicInputs, catalog: Catalog, site: LogisticsNodeSite) -> Result<
    Seq<char>,
    ReportError,
> {
    match site {
        LogisticsNodeSite::ExternalSupply { item } => match spec_item_name(lang, catalog, item) {
            Some(n) => Ok(spec_t(lang, "外部供给("@ + n + ")"@, "External supply ("@ + n + ")"@)),
            None => Err(ReportError::MissingItem(item)),
        },
        LogisticsNodeSite::ExternalConsumption { item } => match spec_item_name(lang, catalog, item) {
            Some(n) => Ok(spec_t(lang, "外部消耗("@ + n + ")"@, "External consumption ("@ + n + ")"@)),
            None => Err(ReportError::MissingItem(item)),
        },
        LogisticsNodeSite::RecipeGroup { recipe_index } => if recipe_index.raw()
            < catalog.spec_recipes().len() {
            let f = catalog.spec_recipes()[recipe_index.raw() as int].facility;
            match spec_facility_name(lang, catalog, f) {
                Some(n) => Ok(n + " r"@ + decimal(recipe_index.raw() as nat)),
                None => Err(ReportError::MissingFacility(f)),
            }
        } else {
            Err(ReportError::MissingRecipe(recipe_index.raw()))
        },
        LogisticsNodeSite::OutpostSale { outpost_index, item } => if outpost_index.raw()
            < inputs.spec_outposts().len() {
            let o = inputs.spec_outposts()[outpost_index.raw() as int];
            match spec_item_name(lang, catalog, item) {
                Some(n) => Ok(
                    spec_t(
                        lang,
                        spec_outpost_name(lang, o) + " 出售("@ + n + ")"@,
                        spec_outpost_name(lang, o) + " sale ("@ + n + ")"@,
                    ),
                ),
                None => Err(ReportError::MissingItem(item)),
            }
        } else {
            Err(ReportError::MissingOutpost(outpost_index))
        },
        LogisticsNodeSite::ThermalBankGroup { power_recipe_index, .. } => Ok(
            spec_t(
                lang,
                "热容池组 p"@ + decimal(power_recipe_index.raw() as nat),
                "Thermal bank group p"@ + decimal(power_recipe_index.raw() as nat),
            ),
        ),
        LogisticsNodeSite::WarehouseStockpile { item } => match spec_item_name(lang, catalog, item) {
            Some(n) => Ok(spec_t(lang, "仓库囤积("@ + n + ")"@, "Warehouse stockpile ("@ + n + ")"@)),
            None => Err(ReportError::MissingItem(item)),
        },
    }
}

fn wrap_name(prefix: &str, name: &str, suffix: &str) -> (s: String)
    ensures
        s@ == prefix@ + name@ + suffix@,
{
    let mut s = string_of(prefix);
    push_str(&mut s, name);
    push_str(&mut s, suffix);
    s
}

/// How a logistics node's place is shown (see [`spec_site_text`]).
pub fn describe_logistics_site(
    lang: Lang,
    inputs: &AicInputs,
    catalog: &Catalog,
    site: &LogisticsNodeSite,
) -> (r: Result<RenderedEndpoint, ReportError>)
    ensures
        match r {
            Ok(e) => spec_site_text(lang, *inputs, *catalog, *site) == Ok::<Seq<char>, ReportError>(e.base@)
                && e.machine_ordinal is None,
            Err(e) => spec_site_text(lang, *inputs, *catalog, *site) == Err::<Seq<char>, ReportError>(e),
        },
{
    let base = match *site {
        LogisticsNodeSite::ExternalSupply { item } => {
            let n = match item_display_name(lang, catalog, item) {
                Ok(n) => n,
                Err(e) => return Err(e),
            };
            match lang {
                Lang::Zh => wrap_name("外部供给(", n, ")"),
                Lang::En => wrap_name("External supply (", n, ")"),
            }
        },
        LogisticsNodeSite::ExternalConsumption { item } => {
            let n = match item_display_name(lang, catalog, item) {
                Ok(n) => n,
                Err(e) => return Err(e),
            };
            match lang {
                Lang::Zh => wrap_name("外部消耗(", n, ")"),
                Lang::En => wrap_name("External consumption (", n, ")"),
            }
        },
        LogisticsNodeSite::RecipeGroup { recipe_index } => {
            let recipe = match catalog.recipe(recipe_index) {
                Some(r) => r,
                None => return Err(ReportError::MissingRecipe(recipe_index.as_u32())),
            };
            let f = match facility_display_name(lang, catalog, recipe.facility) {
                Ok(f) => f,
                Err(e) => return Err(e),
            };
            let mut s = string_of(f);
            push_str(&mut s, " r");
            push_decimal(&mut s, recipe_index.as_u32() as u64);
            s
        },
        LogisticsNodeSite::OutpostSale { outpost_index, item } => {
            let outpost = match inputs.outpost(outpost_index) {
                Some(o) => o,
                None => return Err(ReportError::MissingOutpost(outpost_index)),
            };
            let n = match item_display_name(lang, catalog, item) {
                Ok(n) => n,
                Err(e) => return Err(e),
            };
            let o = outpost_display_name(lang, outpost);
            let mut s = string_of(o);
            match lang {
                Lang::Zh => push_str(&mut s, " 出售("),
                Lang::En => push_str(&mut s, " sale ("),
            }
            push_str(&mut s, n);
            push_str(&mut s, ")");
            s
        },
        LogisticsNodeSite::ThermalBankGroup { power_recipe_index, item: _ } => {
            let mut s = match lang {
                Lang::Zh => string_of("热容池组 p"),
                Lang::En => string_of("Thermal bank group p"),
            };
            push_decimal(&mut s, power_recipe_index.as_u32() as u64);
            s
        },
        LogisticsNodeSite::WarehouseStockpile { item } => {
            let n = match item_display_name(lang, catalog, item) {
                Ok(n) => n,
                Err(e) => return Err(e),
            };
            match lang {
                Lang::Zh => wrap_name("仓库囤积(", n, ")"),
                Lang::En => wrap_name("Warehouse stockpile (", n, ")"),
            }
        },
    };
    Ok(RenderedEndpoint { base, machine_ordinal: None })
}

// ---------------------------------------------------------------------------
// Machine ranges
// ---------------------------------------------------------------------------

/// Numbers in strictly ascending order.
pub open spec fn strictly_ascending(s: Seq<u32>) -> bool {
    forall|i: int, j: int| 0 <= i < j < s.len() ==> #[trigger] s[i] < #[trigger] s[j]
}

/// Maximal runs of consecutive numbers, as `(first, last)` pairs in order.
pub open spec fn machine_runs(s: Seq<u32>) -> Seq<(u32, u32)>
    decreases s.len(),
{
    if s.len() == 0 {
        Seq::empty()
    } else {
        let r = machine_runs(s.drop_last());
        let x = s.last();
        if r.len() > 0 && r.last().1 + 1 == x {
            r.update(r.len() - 1, (r.last().0, x))
        } else {
            r.push((x, x))
        }
    }
}

/// A run as text: `n` for one number, `a-b` for several.
pub open spec fn range_text(run: (u32, u32)) -> Seq<char> {
    if run.0 == run.1 {
        decimal(run.0 as nat)
    } else {
        decimal(run.0 as nat) + "-"@ + decimal(run.1 as nat)
    }
}

/// The runs of a set of machine numbers as text, joined with commas.
pub open spec fn ranges_text(s: Seq<u32>) -> Seq<char> {
    join_texts(machine_runs(s).map_values(|run: (u32, u32)| range_text(run)), ","@)
}

/// Renders one run of machine numbers.
pub fn render_machine_range(start: u32, end: u32) -> (s: String)
    ensures
        s@ == range_text((start, end)),
{
    let mut s = String::new();
    push_decimal(&mut s, start as u64);
    if start != end {
        push_str(&mut s, "-");
        push_decimal(&mut s, end as u64);
    }
    s
}

/// Renders machine numbers (in ascending order) as comma-separated runs,
/// such as `1-3,5`.
pub fn format_machine_ranges(ordinals: &Vec<u32>) -> (s: String)
    requires
        strictly_ascending(ordinals@),
    ensures
        s@ == ranges_text(ordinals@),
{
    let mut parts: Vec<String> = Vec::new();
    let ghost mut done: Seq<(u32, u32)> = Seq::empty();
    let mut start: u32 = 0;
    let mut prev: u32 = 0;
    let mut i: usize = 0;
    while i < ordinals.len()
        invariant
            i <= ordinals@.len(),
            strictly_ascending(ordinals@),
            texts_view(parts@) == done.map_values(|run: (u32, u32)| range_text(run)),
            i == 0 ==> done.len() == 0,
            i > 0 ==> machine_runs(ordinals@.take(i as int)) == done.push((start, prev)),
            i > 0 ==> prev == ordinals@[i - 1],
        decreases ordinals@.len() - i,
    {
        let x = ordinals[i];
        proof {
            let t = ordinals@.take(i + 1);
            assert(t.drop_last() =~= ordinals@.take(i as int));
            assert(t.last() == x);
        }
        if i == 0 {
            proof {
                let t = ordinals@.take(1);
                assert(t.drop_last() =~= Seq::<u32>::empty());
                assert(t.last() == x);
                assert(machine_runs(t.drop_last()).len() == 0);
                assert(machine_runs(t) =~= seq![(x, x)]);
                assert(done.push((x, x)) =~= seq![(x, x)]);
            }
            start = x;
            prev = x;
        } else if x == prev + 1 {
            proof {
                let r = done.push((start, prev));
                assert(r.update(r.len() - 1, (start, x)) =~= done.push((start, x)));
            }
            prev = x;
        } else {
            let part = render_machine_range(start, prev);
            let ghost pv = part@;
            let ghost before = parts@;
            parts.push(part);
            proof {
                assert(texts_view(parts@) =~= texts_view(before).push(pv));
                assert(done.push((start, prev)).map_values(|run: (u32, u32)| range_text(run))
                    =~= done.map_values(|run: (u32, u32)| range_text(run)).push(pv));
                done = done.push((start, prev));
            }
            start = x;
            prev = x;
        }
        i = i + 1;
    }
    proof {
        assert(ordinals@.take(i as int) =~= ordinals@);
    }
    if i > 0 {
        let part = render_machine_range(start, prev);
        let ghost pv = part@;
        let ghost before = parts@;
        parts.push(part);
        proof {
            assert(texts_view(parts@) =~= texts_view(before).push(pv));
            assert(done.push((start, prev)).map_values(|run: (u32, u32)| range_text(run))
                =~= done.map_values(|run: (u32, u32)| range_text(run)).push(pv));
        }
    } else {
        proof {
            assert(ordinals@.len() == 0);
            assert(texts_view(parts@) =~= Seq::<Seq<char>>::empty());
            assert(machine_runs(ordinals@).map_values(|run: (u32, u32)| range_text(run)) =~= Seq::<Seq<char>>::empty());
        }
    }
    join_strings(&parts, ",")
}

/// A logistics endpoint with the machine numbers it stands for: `base #1-3,5`,
/// or the base alone when there are none.
pub fn with_machine_ordinals(base: &str, ordinals: &Vec<u32>) -> (s: String)
    requires
        strictly_ascending(ordinals@),
    ensures
        s@ == (if ordinals@.len() == 0 { base@ } else { base@ + " #"@ + ranges_text(ordinals@) }),
{
    if ordinals.len() == 0 {
        return string_of(base);
    }
    let mut s = string_of(base);
    push_str(&mut s, " #");
    let r = format_machine_ranges(ordinals);
    push_str(&mut s, r.as_str());
    s
}

} // verus!
