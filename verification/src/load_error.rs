//! Errors found while turning parsed input files into a catalog or scenario,
//! and how they are rendered for the user.

use vstd::prelude::*;

use std::ops::Range;

use crate::aic::AicBuildError;
use crate::catalog::{CatalogBuildError, StackList};
use crate::excerpt::{render_span_error, spec_render_span_error};
use crate::strings::{decimal, push_decimal, push_str, string_of};

verus! {

/// An error in the contents of an input file, with the byte span it was
/// found at when that is known.
#[derive(Debug)]
pub enum LoadError {
    /// A field holds a value that the model refuses.
    Schema {
        path: String,
        field: &'static str,
        index: Option<usize>,
        span: Option<Range<usize>>,
        message: String,
    },
    /// Two entries of one kind share a key.
    DuplicateKey { path: String, kind: &'static str, key: String, span: Option<Range<usize>> },
    /// A key names no item of the catalog.
    UnknownItem { path: String, key: String, span: Option<Range<usize>> },
    /// A key names no machine facility of the catalog.
    UnknownFacility { path: String, key: String, span: Option<Range<usize>> },
}

/// What an error says, as plain values.
pub enum ErrorView {
    Schema {
        path: Seq<char>,
        field: Seq<char>,
        index: Option<usize>,
        span: Option<Range<usize>>,
        message: Seq<char>,
    },
    DuplicateKey { path: Seq<char>, kind: Seq<char>, key: Seq<char>, span: Option<Range<usize>> },
    UnknownItem { path: Seq<char>, key: Seq<char>, span: Option<Range<usize>> },
    UnknownFacility { path: Seq<char>, key: Seq<char>, span: Option<Range<usize>> },
}

/// The view of an error: its texts as character sequences.
pub open spec fn error_view(e: LoadError) -> ErrorView {
    match e {
        LoadError::Schema { path, field, index, span, message } => ErrorView::Schema {
            path: path@,
            field: field@,
            index,
            span,
            message: message@,
        },
        LoadError::DuplicateKey { path, kind, key, span } => ErrorView::DuplicateKey {
            path: path@,
            kind: kind@,
            key: key@,
            span,
        },
        LoadError::UnknownItem { path, key, span } => ErrorView::UnknownItem { path: path@, key: key@, span },
        LoadError::UnknownFacility { path, key, span } => ErrorView::UnknownFacility {
            path: path@,
            key: key@,
            span,
        },
    }
}

/// The problem that the first of `n` checks, taken in order, reports.
pub open spec fn first_problem<V>(n: nat, check: spec_fn(int) -> Option<V>) -> Option<V>
    decreases n,
{
    if n == 0 {
        None
    } else {
        let before = first_problem((n - 1) as nat, check);
        if before is Some {
            before
        } else {
            check(n - 1)
        }
    }
}

/// No problem among the first `n` checks means each of them passes.
pub proof fn lemma_first_problem_none<V>(n: nat, check: spec_fn(int) -> Option<V>)
    ensures
        first_problem(n, check) is None <==> forall|k: int| 0 <= k < n ==> (#[trigger] check(k)) is None,
    decreases n,
{
    if n > 0 {
        lemma_first_problem_none((n - 1) as nat, check);
    }
}

/// Once a problem is found among the first `n` checks, more checks report
/// the same problem.
pub proof fn lemma_first_problem_stays<V>(n: nat, m: nat, check: spec_fn(int) -> Option<V>)
    requires
        n <= m,
        first_problem(n, check) is Some,
    ensures
        first_problem(m, check) == first_problem(n, check),
    decreases m - n,
{
    if n < m {
        lemma_first_problem_stays(n, (m - 1) as nat, check);
    }
}

/// A span as a pair of byte offsets.
pub open spec fn span_view(span: Option<Range<usize>>) -> Option<(int, int)> {
    match span {
        Some(r) => Some((r.start as int, r.end as int)),
        None => None,
    }
}

/// The source text, when it is known.
pub open spec fn src_view(src: Option<&str>) -> Option<Seq<char>> {
    match src {
        Some(s) => Some(s@),
        None => None,
    }
}

/// `", index=N"` for a list entry, nothing for a top-level field.
pub open spec fn index_suffix(index: Option<usize>) -> Seq<char> {
    match index {
        Some(i) => ", index="@ + decimal(i as nat),
        None => Seq::empty(),
    }
}

/// The first line of a rendered error, before its location.
pub open spec fn error_headline(e: LoadError) -> Seq<char> {
    match e {
        LoadError::Schema { path, field, index, message, .. } => "Schema error in "@ + path@
            + ", field `"@ + field@ + "`"@ + index_suffix(index) + ": "@ + message@,
        LoadError::DuplicateKey { path, kind, key, .. } => "Duplicate "@ + kind@ + " key `"@ + key@
            + "` in "@ + path@,
        LoadError::UnknownItem { path, key, .. } => "Unknown item `"@ + key@ + "` in "@ + path@,
        LoadError::UnknownFacility { path, key, .. } => "Unknown facility `"@ + key@ + "` in "@
            + path@,
    }
}

/// The span an error points at.
pub open spec fn error_span(e: LoadError) -> Option<Range<usize>> {
    match e {
        LoadError::Schema { span, .. } => span,
        LoadError::DuplicateKey { span, .. } => span,
        LoadError::UnknownItem { span, .. } => span,
        LoadError::UnknownFacility { span, .. } => span,
    }
}

/// `", index=N"` for a list entry, an empty string otherwise.
pub fn schema_index_suffix(index: Option<usize>) -> (s: String)
    ensures
        s@ == index_suffix(index),
{
    match index {
        Some(i) => {
            let mut s = string_of(", index=");
            push_decimal(&mut s, i as u64);
            s
        },
        None => String::new(),
    }
}

/// Renders a schema error: its headline, then where it was found.
pub fn render_schema_error(
    path: &str,
    field: &str,
    index: Option<usize>,
    span: Option<&Range<usize>>,
    src: Option<&str>,
    message: &str,
) -> (out: String)
    ensures
        out@ == spec_render_span_error(
            "Schema error in "@ + path@ + ", field `"@ + field@ + "`"@ + index_suffix(index) + ": "@
                + message@,
            match span {
                Some(r) => Some((r.start as int, r.end as int)),
                None => None,
            },
            src_view(src),
        ),
{
    let mut base = string_of("Schema error in ");
    push_str(&mut base, path);
    push_str(&mut base, ", field `");
    push_str(&mut base, field);
    push_str(&mut base, "`");
    let suffix = schema_index_suffix(index);
    push_str(&mut base, suffix.as_str());
    push_str(&mut base, ": ");
    push_str(&mut base, message);
    render_span_error(base, span, src)
}

impl LoadError {
    /// The error as shown to the user; `src` is the text of the file the
    /// error is about, used to show the line its span points at.
    pub fn render(&self, src: Option<&str>) -> (out: String)
        ensures
            out@ == spec_render_span_error(
                error_headline(*self),
                span_view(error_span(*self)),
                src_view(src),
            ),
    {
        match self {
            LoadError::Schema { path, field, index, span, message } => render_schema_error(
                path.as_str(),
                field,
                *index,
                span.as_ref(),
                src,
                message.as_str(),
            ),
            LoadError::DuplicateKey { path, kind, key, span } => {
                let mut base = string_of("Duplicate ");
                push_str(&mut base, kind);
                push_str(&mut base, " key `");
                push_str(&mut base, key.as_str());
                push_str(&mut base, "` in ");
                push_str(&mut base, path.as_str());
                render_span_error(base, span.as_ref(), src)
            },
            LoadError::UnknownItem { path, key, span } => {
                let mut base = string_of("Unknown item `");
                push_str(&mut base, key.as_str());
                push_str(&mut base, "` in ");
                push_str(&mut base, path.as_str());
                render_span_error(base, span.as_ref(), src)
            },
            LoadError::UnknownFacility { path, key, span } => {
                let mut base = string_of("Unknown facility `");
                push_str(&mut base, key.as_str());
                push_str(&mut base, "` in ");
                push_str(&mut base, path.as_str());
                render_span_error(base, span.as_ref(), src)
            },
        }
    }
}

/// A copy of an optional span.
pub fn copy_span(span: &Option<Range<usize>>) -> (r: Option<Range<usize>>)
    ensures
        r == *span,
{
    match span {
        Some(s) => Some(Range { start: s.start, end: s.end }),
        None => None,
    }
}

/// Spans of one recipe entry, used to point an error at the most specific
/// part of it.
#[derive(Debug)]
pub struct RecipeSpanContext {
    pub recipe: Option<Range<usize>>,
    pub ingredients: Option<Range<usize>>,
    pub products: Option<Range<usize>>,
}

/// Reports an item that the catalog refused: a repeated key as a duplicate,
/// anything else as a schema error of the `items` list.
pub fn map_item_build_error(
    path: &str,
    index: usize,
    span: Option<Range<usize>>,
    source: CatalogBuildError,
) -> (e: LoadError)
    ensures
        match source {
            CatalogBuildError::DuplicateItemKey(k) => e matches LoadError::DuplicateKey {
                path: p,
                kind,
                key,
                span: s,
            } && p@ == path@ && kind@ == "item"@ && key@ == k@ && s == span,
            _ => e matches LoadError::Schema { path: p, field, index: i, span: s, message }
                && p@ == path@ && field@ == "items"@ && i == Some(index) && s == span && message@
                == source.spec_message(),
        },
{
    proof {
        reveal_strlit("item");
        reveal_strlit("items");
    }
    match source {
        CatalogBuildError::DuplicateItemKey(key) => LoadError::DuplicateKey {
            path: string_of(path),
            kind: "item",
            key: key.into_string(),
            span,
        },
        _ => {
            let message = source.message();
            LoadError::Schema {
                path: string_of(path),
                field: "items",
                index: Some(index),
                span,
                message,
            }
        },
    }
}

/// Reports a machine that the catalog refused: a repeated key as a
/// duplicate, anything else as a schema error of the `machines` list.
pub fn map_machine_build_error(
    path: &str,
    index: usize,
    span: Option<Range<usize>>,
    source: CatalogBuildError,
) -> (e: LoadError)
    ensures
        match source {
            CatalogBuildError::DuplicateFacilityKey(k) => e matches LoadError::DuplicateKey {
                path: p,
                kind,
                key,
                span: s,
            } && p@ == path@ && kind@ == "facility"@ && key@ == k@ && s == span,
            _ => e matches LoadError::Schema { path: p, field, index: i, span: s, message }
                && p@ == path@ && field@ == "machines"@ && i == Some(index) && s == span
                && message@ == source.spec_message(),
        },
{
    proof {
        reveal_strlit("facility");
        reveal_strlit("machines");
    }
    match source {
        CatalogBuildError::DuplicateFacilityKey(key) => LoadError::DuplicateKey {
            path: string_of(path),
            kind: "facility",
            key: key.into_string(),
            span,
        },
        _ => {
            let message = source.message();
            LoadError::Schema {
                path: string_of(path),
                field: "machines",
                index: Some(index),
                span,
                message,
            }
        },
    }
}

/// Reports a thermal bank that the catalog refused: a key that a machine
/// already has as a duplicate, anything else as a schema error of the
/// `thermal_bank` section.
pub fn map_thermal_facility_build_error(
    path: &str,
    span: Option<Range<usize>>,
    source: CatalogBuildError,
) -> (e: LoadError)
    ensures
        match source {
            CatalogBuildError::DuplicateFacilityKey(k) => e matches LoadError::DuplicateKey {
                path: p,
                kind,
                key,
                span: s,
            } && p@ == path@ && kind@ == "facility"@ && key@ == k@ && s == span,
            _ => e matches LoadError::Schema { path: p, field, index: i, span: s, message }
                && p@ == path@ && field@ == "thermal_bank"@ && i is None && s == span && message@
                == source.spec_message(),
        },
{
    proof {
        reveal_strlit("facility");
        reveal_strlit("thermal_bank");
    }
    match source {
        CatalogBuildError::DuplicateFacilityKey(key) => LoadError::DuplicateKey {
            path: string_of(path),
            kind: "facility",
            key: key.into_string(),
            span,
        },
        _ => {
            let message = source.message();
            LoadError::Schema {
                path: string_of(path),
                field: "thermal_bank",
                index: None,
                span,
                message,
            }
        },
    }
}

/// Which recipe field an error of the catalog is about.
pub open spec fn recipe_error_field(source: CatalogBuildError) -> Seq<char> {
    match source {
        CatalogBuildError::UnknownRecipeFacilityId(_) => "recipes.facility"@,
        CatalogBuildError::RecipeTimeMustBePositive => "recipes.time_s"@,
        CatalogBuildError::RecipeIngredientsMustNotBeEmpty => "recipes.ingredients"@,
        CatalogBuildError::RecipeProductsMustNotBeEmpty => "recipes.products"@,
        CatalogBuildError::RecipeStackCountMustBePositive { list, .. } => recipe_list_field(list),
        CatalogBuildError::UnknownRecipeItemId { list, .. } => recipe_list_field(list),
        CatalogBuildError::DuplicateRecipeItem { list, .. } => recipe_list_field(list),
        _ => "recipes"@,
    }
}

/// The field of a recipe's stack list.
pub open spec fn recipe_list_field(list: StackList) -> Seq<char> {
    match list {
        StackList::Ingredients => "recipes.ingredients"@,
        StackList::Products => "recipes.products"@,
    }
}

fn list_field(list: StackList) -> (f: &'static str)
    ensures
        f@ == recipe_list_field(list),
{
    proof {
        reveal_strlit("recipes.ingredients");
        reveal_strlit("recipes.products");
    }
    match list {
        StackList::Ingredients => "recipes.ingredients",
        StackList::Products => "recipes.products",
    }
}

/// Reports a recipe that the catalog refused, as a schema error of its most
/// specific field, pointing at that field's span when it is known and at the
/// recipe's otherwise.
pub fn map_recipe_build_error(
    path: &str,
    index: usize,
    spans: RecipeSpanContext,
    source: CatalogBuildError,
) -> (e: LoadError)
    ensures
        e matches LoadError::Schema { path: p, field, index: i, span, message } && p@ == path@
            && field@ == recipe_error_field(source) && i == Some(index) && message@
            == source.spec_message() && span == (if field@ == "recipes.ingredients"@
            && spans.ingredients is Some {
            spans.ingredients
        } else if field@ == "recipes.products"@ && spans.products is Some {
            spans.products
        } else {
            spans.recipe
        }),
{
    proof {
        reveal_strlit("recipes.facility");
        reveal_strlit("recipes.time_s");
        reveal_strlit("recipes.ingredients");
        reveal_strlit("recipes.products");
        reveal_strlit("recipes");
        assert("recipes.ingredients"@.len() != "recipes.products"@.len());
        assert("recipes.ingredients"@.len() != "recipes"@.len());
        assert("recipes.products"@ != "recipes"@);
        assert("recipes.products"@[8] != "recipes.facility"@[8]);
        assert("recipes.ingredients"@ != "recipes.time_s"@);
        assert("recipes.products"@ != "recipes.time_s"@);
        assert("recipes.ingredients"@ != "recipes.facility"@);
    }
    let message = source.message();
    let field: &'static str = match &source {
        CatalogBuildError::UnknownRecipeFacilityId(_) => "recipes.facility",
        CatalogBuildError::RecipeTimeMustBePositive => "recipes.time_s",
        CatalogBuildError::RecipeIngredientsMustNotBeEmpty => "recipes.ingredients",
        CatalogBuildError::RecipeProductsMustNotBeEmpty => "recipes.products",
        CatalogBuildError::RecipeStackCountMustBePositive { list, .. } => list_field(*list),
        CatalogBuildError::UnknownRecipeItemId { list, .. } => list_field(*list),
        CatalogBuildError::DuplicateRecipeItem { list, .. } => list_field(*list),
        _ => "recipes",
    };
    let is_ingredients = match &source {
        CatalogBuildError::RecipeIngredientsMustNotBeEmpty => true,
        CatalogBuildError::RecipeStackCountMustBePositive { list, .. } => *list
            == StackList::Ingredients,
        CatalogBuildError::UnknownRecipeItemId { list, .. } => *list == StackList::Ingredients,
        CatalogBuildError::DuplicateRecipeItem { list, .. } => *list == StackList::Ingredients,
        _ => false,
    };
    let is_products = match &source {
        CatalogBuildError::RecipeProductsMustNotBeEmpty => true,
        CatalogBuildError::RecipeStackCountMustBePositive { list, .. } => *list
            == StackList::Products,
        CatalogBuildError::UnknownRecipeItemId { list, .. } => *list == StackList::Products,
        CatalogBuildError::DuplicateRecipeItem { list, .. } => *list == StackList::Products,
        _ => false,
    };
    let RecipeSpanContext { recipe, ingredients, products } = spans;
    let span = if is_ingredients && ingredients.is_some() {
        ingredients
    } else if is_products && products.is_some() {
        products
    } else {
        recipe
    };
    LoadError::Schema { path: string_of(path), field, index: Some(index), span, message }
}

/// Reports a power recipe that the catalog refused, as a schema error of
/// the `power_recipes` list pointing at the entry.
pub fn map_power_recipe_build_error(
    path: &str,
    index: usize,
    recipe_span: Option<Range<usize>>,
    source: CatalogBuildError,
) -> (e: LoadError)
    ensures
        e matches LoadError::Schema { path: p, field, index: i, span, message } && p@ == path@
            && field@ == "power_recipes"@ && i == Some(index) && span == recipe_span && message@
            == source.spec_message(),
{
    proof {
        reveal_strlit("power_recipes");
    }
    let message = source.message();
    LoadError::Schema {
        path: string_of(path),
        field: "power_recipes",
        index: Some(index),
        span: recipe_span,
        message,
    }
}

/// Reports a scenario that the model refused: a repeated outpost key as a
/// duplicate, pointing at the span of that outpost when it is known.
pub fn map_aic_build_error(path: &str, source: AicBuildError, span: Option<Range<usize>>) -> (e:
    LoadError)
    ensures
        match source {
            AicBuildError::DuplicateOutpostKey { key: k } => e matches LoadError::DuplicateKey {
                path: p,
                kind,
                key,
                span: s,
            } && p@ == path@ && kind@ == "outpost"@ && key@ == k@ && s == span,
        },
{
    proof {
        reveal_strlit("outpost");
    }
    match source {
        AicBuildError::DuplicateOutpostKey { key } => LoadError::DuplicateKey {
            path: string_of(path),
            kind: "outpost",
            key: key.into_string(),
            span,
        },
    }
}

} // verus!
