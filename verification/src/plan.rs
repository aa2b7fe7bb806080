//! The integer side of a production plan: machine counts per recipe and
//! facility, thermal banks, the power balance, and net item deltas of
//! recipes.
//!
//! The linear program that chooses machine counts works on floating-point
//! numbers and lives outside this library; once its counts are read back as
//! whole numbers, the summaries below are computed here.

use vstd::prelude::*;

use crate::catalog::{FacilityId, ItemId, PowerRecipeId, Recipe, RecipeId};

verus! {

// ---------------------------------------------------------------------------
// Ordering by count, largest first
// ---------------------------------------------------------------------------

/// A plan line that is ordered by a count, largest first.
pub trait CountedLine: Sized {
    /// The count the line is ordered by.
    spec fn count_key(&self) -> u32;

    /// Reads the count the line is ordered by.
    fn count(&self) -> (c: u32)
        ensures
            c == self.count_key(),
    ;
}

/// Inserts `x` into a list ordered largest first, after every line whose
/// count is at least `x`'s: lines of equal count keep their order.
pub open spec fn insert_desc<T: CountedLine>(s: Seq<T>, x: T) -> Seq<T>
    decreases s.len(),
{
    if s.len() == 0 {
        seq![x]
    } else if s[0].count_key() >= x.count_key() {
        seq![s[0]] + insert_desc(s.drop_first(), x)
    } else {
        seq![x] + s
    }
}

/// The lines ordered by count, largest first; lines of equal count keep
/// their order (a stable sort).
pub open spec fn sort_desc<T: CountedLine>(s: Seq<T>) -> Seq<T>
    decreases s.len(),
{
    if s.len() == 0 {
        s
    } else {
        insert_desc(sort_desc(s.drop_last()), s.last())
    }
}

/// Counts never increase along the list.
pub open spec fn sorted_desc<T: CountedLine>(s: Seq<T>) -> bool {
    forall|i: int, j: int| 0 <= i < j < s.len() ==> #[trigger] s[i].count_key() >= #[trigger] s[j].count_key()
}

proof fn lemma_insert_desc<T: CountedLine>(s: Seq<T>, x: T)
    requires
        sorted_desc(s),
    ensures
        sorted_desc(insert_desc(s, x)),
        insert_desc(s, x).to_multiset() == s.to_multiset().insert(x),
        insert_desc(s, x).len() == s.len() + 1,
    decreases s.len(),
{
    broadcast use vstd::seq_lib::group_to_multiset_ensures;
    if s.len() == 0 {
        assert(seq![x] =~= Seq::<T>::empty().push(x));
    } else if s[0].count_key() >= x.count_key() {
        let rest = s.drop_first();
        assert(sorted_desc(rest)) by {
            assert forall|i: int, j: int| 0 <= i < j < rest.len() implies #[trigger] rest[i].count_key()
                >= #[trigger] rest[j].count_key() by {
                assert(rest[i] == s[i + 1] && rest[j] == s[j + 1]);
            }
        }
        lemma_insert_desc(rest, x);
        let ins = insert_desc(rest, x);
        let r = seq![s[0]] + ins;
        assert forall|i: int, j: int| 0 <= i < j < r.len() implies #[trigger] r[i].count_key()
            >= #[trigger] r[j].count_key() by {
            if i == 0 {
                assert(r[j] == ins[j - 1]);
                assert(ins.to_multiset().count(ins[j - 1]) > 0);
                assert(ins.to_multiset() == rest.to_multiset().insert(x));
                if ins[j - 1] != x {
                    assert(rest.to_multiset().count(ins[j - 1]) > 0);
                    assert(rest.contains(ins[j - 1]));
                    let k = choose|k: int| 0 <= k < rest.len() && rest[k] == ins[j - 1];
                    assert(rest[k] == s[k + 1]);
                }
            } else {
                assert(r[i] == ins[i - 1] && r[j] == ins[j - 1]);
            }
        }
        assert(s =~= seq![s[0]] + rest);
        vstd::seq_lib::lemma_multiset_commutative(seq![s[0]], ins);
        vstd::seq_lib::lemma_multiset_commutative(seq![s[0]], rest);
        assert(r.to_multiset() =~= s.to_multiset().insert(x));
    } else {
        let r = seq![x] + s;
        assert forall|i: int, j: int| 0 <= i < j < r.len() implies #[trigger] r[i].count_key()
            >= #[trigger] r[j].count_key() by {
            if i == 0 {
                assert(r[j] == s[j - 1]);
                if j - 1 > 0 {
                    assert(s[0].count_key() >= s[j - 1].count_key());
                }
            } else {
                assert(r[i] == s[i - 1] && r[j] == s[j - 1]);
            }
        }
        vstd::seq_lib::lemma_multiset_commutative(seq![x], s);
        assert(r.to_multiset() =~= s.to_multiset().insert(x));
    }
}

/// Ordering lines by count keeps every line and leaves the counts in
/// non-increasing order.
pub proof fn law_sort_desc_sorted_permutation<T: CountedLine>(s: Seq<T>)
    ensures
        sorted_desc(sort_desc(s)),
        sort_desc(s).to_multiset() == s.to_multiset(),
        sort_desc(s).len() == s.len(),
    decreases s.len(),
{
    broadcast use vstd::seq_lib::group_to_multiset_ensures;
    if s.len() > 0 {
        law_sort_desc_sorted_permutation(s.drop_last());
        lemma_insert_desc(sort_desc(s.drop_last()), s.last());
        assert(s =~= s.drop_last().push(s.last()));
    }
}

fn insert_line_desc<T: CountedLine>(v: &mut Vec<T>, x: T)
    ensures
        final(v)@ == insert_desc(old(v)@, x),
{
    let c = x.count();
    let mut i: usize = 0;
    while i < v.len() && v[i].count() >= c
        invariant
            i <= v@.len(),
            v@ == old(v)@,
            c == x.count_key(),
            forall|j: int| 0 <= j < i ==> (#[trigger] v@[j]).count_key() >= c,
        decreases v@.len() - i,
    {
        i = i + 1;
    }
    proof {
        lemma_insert_desc_at(old(v)@, x, i as int);
    }
    v.insert(i, x);
}

proof fn lemma_insert_desc_at<T: CountedLine>(s: Seq<T>, x: T, i: int)
    requires
        0 <= i <= s.len(),
        forall|j: int| 0 <= j < i ==> (#[trigger] s[j]).count_key() >= x.count_key(),
        i == s.len() || s[i].count_key() < x.count_key(),
    ensures
        insert_desc(s, x) == s.insert(i, x),
    decreases i,
{
    if s.len() == 0 {
        assert(s.insert(i, x) =~= seq![x]);
    } else if i == 0 {
        assert(s.insert(0, x) =~= seq![x] + s);
    } else {
        let rest = s.drop_first();
        assert forall|j: int| 0 <= j < i - 1 implies (#[trigger] rest[j]).count_key() >= x.count_key() by {
            assert(rest[j] == s[j + 1]);
        }
        if i < s.len() {
            assert(rest[i - 1] == s[i]);
        }
        lemma_insert_desc_at(rest, x, i - 1);
        assert(s.insert(i, x) =~= seq![s[0]] + rest.insert(i - 1, x));
    }
}

/// Orders lines by count, largest first, keeping the order of lines with
/// equal counts.
pub fn sort_lines_desc<T: CountedLine>(lines: Vec<T>) -> (r: Vec<T>)
    ensures
        r@ == sort_desc(lines@),
{
    let mut lines = lines;
    let ghost orig = lines@;
    let mut rev: Vec<T> = Vec::new();
    // Take lines from the back so that the remaining front stays a prefix.
    while lines.len() > 0
        invariant
            lines@ == orig.take(lines@.len() as int),
            rev@.len() + lines@.len() == orig.len(),
            forall|k: int| 0 <= k < rev@.len() ==> #[trigger] rev@[k] == orig[orig.len() - 1 - k],
        decreases lines@.len(),
    {
        let x = lines.pop().unwrap();
        rev.push(x);
        proof {
            assert(lines@ =~= orig.take(lines@.len() as int));
        }
    }
    let mut out: Vec<T> = Vec::new();
    // Insert in input order: rev holds them last-first.
    while rev.len() > 0
        invariant
            rev@.len() <= orig.len(),
            forall|j: int| 0 <= j < rev@.len() ==> #[trigger] rev@[j] == orig[orig.len() - 1 - j],
            out@ == sort_desc(orig.take(orig.len() - rev@.len())),
        decreases rev@.len(),
    {
        let ghost m = orig.len() - rev@.len();
        let x = rev.pop().unwrap();
        proof {
            assert(x == orig[m]);
            let t = orig.take(m + 1);
            assert(t.drop_last() =~= orig.take(m));
            assert(t.last() == x);
        }
        insert_line_desc(&mut out, x);
    }
    proof {
        assert(orig.take(orig.len() as int) =~= orig);
    }
    out
}

// ---------------------------------------------------------------------------
// Machines
// ---------------------------------------------------------------------------

/// Machines that the plan gives one recipe, as read back from the solver.
#[derive(Debug, Clone, Copy, PartialEq, Eq, Structural)]
pub struct RecipeMachines {
    pub recipe: RecipeId,
    pub facility: FacilityId,
    pub machines: u32,
}

impl CountedLine for RecipeMachines {
    open spec fn count_key(&self) -> u32 {
        self.machines
    }

    fn count(&self) -> (c: u32) {
        self.machines
    }
}

/// Machine count aggregated by facility type.
#[derive(Debug, Clone, Copy, PartialEq, Eq, Structural)]
pub struct FacilityMachineCount {
    pub facility: FacilityId,
    pub machines: u32,
}

impl CountedLine for FacilityMachineCount {
    open spec fn count_key(&self) -> u32 {
        self.machines
    }

    fn count(&self) -> (c: u32) {
        self.machines
    }
}

/// Total machines of all recipes run on `facility`.
pub open spec fn facility_total(lines: Seq<RecipeMachines>, facility: FacilityId) -> int
    decreases lines.len(),
{
    if lines.len() == 0 {
        0
    } else {
        facility_total(lines.drop_last(), facility) + if lines.last().facility == facility {
            lines.last().machines as int
        } else {
            0
        }
    }
}

/// Total machines over all recipes.
pub open spec fn machines_total(lines: Seq<RecipeMachines>) -> int
    decreases lines.len(),
{
    if lines.len() == 0 {
        0
    } else {
        machines_total(lines.drop_last()) + lines.last().machines as int
    }
}

/// The facilities that run at least one machine, in order of their first
/// such recipe, with their machine totals.
pub open spec fn facility_totals(lines: Seq<RecipeMachines>) -> Seq<FacilityMachineCount>
    decreases lines.len(),
{
    if lines.len() == 0 {
        Seq::empty()
    } else {
        let prev = facility_totals(lines.drop_last());
        let l = lines.last();
        if l.machines == 0 {
            prev
        } else {
            match facility_position(prev, l.facility) {
                Some(i) => prev.update(
                    i,
                    FacilityMachineCount { facility: l.facility, machines: (prev[i].machines + l.machines) as u32 },
                ),
                None => prev.push(FacilityMachineCount { facility: l.facility, machines: l.machines }),
            }
        }
    }
}

/// Where `facility` stands in a list of facility totals.
pub open spec fn facility_position(s: Seq<FacilityMachineCount>, facility: FacilityId) -> Option<int> {
    if exists|i: int| 0 <= i < s.len() && (#[trigger] s[i]).facility == facility {
        Some(choose|i: int| 0 <= i < s.len() && (#[trigger] s[i]).facility == facility)
    } else {
        None
    }
}

/// Recipes that run at least one machine, in their given order.
pub open spec fn used_recipes(lines: Seq<RecipeMachines>) -> Seq<RecipeMachines> {
    lines.filter(|l: RecipeMachines| l.machines > 0)
}

/// Machine totals by facility, largest first, for the recipes that run at
/// least one machine (facilities of equal totals in the order their first
/// recipe appears), and the total over all recipes. `None` when a total does
/// not fit in a `u32`.
pub fn summarize_machines(lines: &Vec<RecipeMachines>) -> (r: Option<(Vec<FacilityMachineCount>, u32)>)
    ensures
        match r {
            Some((by_facility, total)) => {
                &&& by_facility@ == sort_desc(facility_totals(lines@))
                &&& total == machines_total(lines@)
            },
            None => machines_total(lines@) > u32::MAX,
        },
{
    let mut totals: Vec<FacilityMachineCount> = Vec::new();
    let mut total: u32 = 0;
    let mut i: usize = 0;
    while i < lines.len()
        invariant
            i <= lines@.len(),
            totals@ == facility_totals(lines@.take(i as int)),
            total == machines_total(lines@.take(i as int)),
            forall|k: int| 0 <= k < totals@.len() ==> (#[trigger] totals@[k]).machines <= total,
            forall|a: int, b: int| 0 <= a < b < totals@.len() ==> #[trigger] totals@[a].facility != #[trigger] totals@[b].facility,
        decreases lines@.len() - i,
    {
        let l = lines[i];
        let ghost prev = lines@.take(i as int);
        proof {
            let t = lines@.take(i + 1);
            assert(t.drop_last() =~= prev);
            assert(t.last() == l);
        }
        if total > u32::MAX - l.machines {
            proof {
                lemma_machines_total_monotone(lines@, i as int + 1);
            }
            return None;
        }
        total = total + l.machines;
        if l.machines > 0 {
            let mut j: usize = 0;
            while j < totals.len() && totals[j].facility != l.facility
                invariant
                    j <= totals@.len(),
                    forall|k: int| 0 <= k < j ==> (#[trigger] totals@[k]).facility != l.facility,
                decreases totals@.len() - j,
            {
                j = j + 1;
            }
            if j < totals.len() {
                proof {
                    let p = facility_position(totals@, l.facility);
                    assert(totals@[j as int].facility == l.facility);
                    let c = choose|c: int| 0 <= c < totals@.len() && (#[trigger] totals@[c]).facility == l.facility;
                    if c != j {
                        if c < j {
                            assert(totals@[c].facility != totals@[j as int].facility);
                        } else {
                            assert(totals@[j as int].facility != totals@[c].facility);
                        }
                    }
                }
                let m = totals[j].machines + l.machines;
                totals.set(j, FacilityMachineCount { facility: l.facility, machines: m });
            } else {
                totals.push(FacilityMachineCount { facility: l.facility, machines: l.machines });
            }
        }
        i = i + 1;
    }
    proof {
        assert(lines@.take(i as int) =~= lines@);
    }
    let sorted = sort_lines_desc(totals);
    Some((sorted, total))
}

proof fn lemma_machines_total_monotone(lines: Seq<RecipeMachines>, n: int)
    requires
        0 <= n <= lines.len(),
    ensures
        machines_total(lines.take(n)) <= machines_total(lines),
    decreases lines.len() - n,
{
    if n < lines.len() {
        lemma_machines_total_monotone(lines, n + 1);
        let t = lines.take(n + 1);
        assert(t.drop_last() =~= lines.take(n));
    } else {
        assert(lines.take(n) =~= lines);
    }
}

/// The recipes that run at least one machine, most machines first (recipes
/// of equal counts keep their order).
pub fn used_recipes_desc(lines: &Vec<RecipeMachines>) -> (r: Vec<RecipeMachines>)
    ensures
        r@ == sort_desc(used_recipes(lines@)),
{
    let mut used: Vec<RecipeMachines> = Vec::new();
    let mut i: usize = 0;
    while i < lines.len()
        invariant
            i <= lines@.len(),
            used@ == used_recipes(lines@.take(i as int)),
        decreases lines@.len() - i,
    {
        let l = lines[i];
        proof {
            let t = lines@.take(i + 1);
            assert(t.drop_last() =~= lines@.take(i as int));
            reveal(Seq::filter);
            assert(t.filter(|l: RecipeMachines| l.machines > 0) == if l.machines > 0 {
                lines@.take(i as int).filter(|l: RecipeMachines| l.machines > 0).push(l)
            } else {
                lines@.take(i as int).filter(|l: RecipeMachines| l.machines > 0)
            });
        }
        if l.machines > 0 {
            used.push(l);
        }
        i = i + 1;
    }
    proof {
        assert(lines@.take(i as int) =~= lines@);
    }
    sort_lines_desc(used)
}

// ---------------------------------------------------------------------------
// Thermal banks and power
// ---------------------------------------------------------------------------

/// Thermal banks that the plan runs on one power recipe.
#[derive(Debug, Clone, Copy, PartialEq, Eq, Structural)]
pub struct ThermalBankUsage {
    pub power_recipe_index: PowerRecipeId,
    /// Fuel item consumed by the thermal bank.
    pub ingredient: ItemId,
    /// Number of thermal banks.
    pub banks: u32,
    /// Per-bank power output.
    pub power_w: u32,
    /// Per-bank cycle duration in seconds.
    pub duration_s: u32,
}

impl CountedLine for ThermalBankUsage {
    open spec fn count_key(&self) -> u32 {
        self.banks
    }

    fn count(&self) -> (c: u32) {
        self.banks
    }
}

/// The power recipes that run at least one bank, most banks first.
pub fn thermal_banks_used(lines: &Vec<ThermalBankUsage>) -> (r: Vec<ThermalBankUsage>)
    ensures
        r@ == sort_desc(lines@.filter(|l: ThermalBankUsage| l.banks > 0)),
{
    let mut used: Vec<ThermalBankUsage> = Vec::new();
    let mut i: usize = 0;
    while i < lines.len()
        invariant
            i <= lines@.len(),
            used@ == lines@.take(i as int).filter(|l: ThermalBankUsage| l.banks > 0),
        decreases lines@.len() - i,
    {
        let l = lines[i];
        proof {
            let t = lines@.take(i + 1);
            assert(t.drop_last() =~= lines@.take(i as int));
            reveal(Seq::filter);
        }
        if l.banks > 0 {
            used.push(l);
        }
        i = i + 1;
    }
    proof {
        assert(lines@.take(i as int) =~= lines@);
    }
    sort_lines_desc(used)
}

/// The power balance of a plan, in watts.
#[derive(Debug, Clone, Copy, PartialEq, Eq, Structural)]
pub struct PowerSummary {
    /// External stable generation (W).
    pub external_production_w: u32,
    /// External stable consumption (W).
    pub external_consumption_w: u32,
    /// Thermal-bank generation (W).
    pub thermal_generation_w: u32,
    /// Production-machine consumption (W).
    pub machine_consumption_w: u32,
    /// Total generation (W).
    pub total_gen_w: u32,
    /// Total usage (W).
    pub total_use_w: u32,
    /// `total_gen_w - total_use_w`.
    pub margin_w: u32,
}

/// The power balance from its parts; `None` when the plan uses more power
/// than it generates.
pub fn power_summary(
    external_production_w: u32,
    external_consumption_w: u32,
    thermal_generation_w: u32,
    machine_consumption_w: u32,
    total_gen_w: u32,
    total_use_w: u32,
) -> (r: Option<PowerSummary>)
    ensures
        match r {
            Some(p) => {
                &&& total_gen_w >= total_use_w
                &&& p == PowerSummary {
                    external_production_w,
                    external_consumption_w,
                    thermal_generation_w,
                    machine_consumption_w,
                    total_gen_w,
                    total_use_w,
                    margin_w: (total_gen_w - total_use_w) as u32,
                }
            },
            None => total_gen_w < total_use_w,
        },
{
    if total_gen_w < total_use_w {
        return None;
    }
    Some(
        PowerSummary {
            external_production_w,
            external_consumption_w,
            thermal_generation_w,
            machine_consumption_w,
            total_gen_w,
            total_use_w,
            margin_w: total_gen_w - total_use_w,
        },
    )
}

// ---------------------------------------------------------------------------
// Net item deltas of a recipe
// ---------------------------------------------------------------------------

/// Units of `item` that one run of a recipe takes (ingredients) or gives
/// (products), summed over the lists.
pub open spec fn stack_sum(stacks: Seq<crate::catalog::Stack>, item: ItemId) -> int
    decreases stacks.len(),
{
    if stacks.len() == 0 {
        0
    } else {
        stack_sum(stacks.drop_last(), item) + if stacks.last().item == item {
            stacks.last().count as int
        } else {
            0
        }
    }
}

/// Net change of `item` per run of a recipe: products minus ingredients.
pub open spec fn net_delta(r: Recipe, item: ItemId) -> int {
    stack_sum(r.products@, item) - stack_sum(r.ingredients@, item)
}

/// An item occurs in one of the recipe's lists.
pub open spec fn recipe_touches(r: Recipe, item: ItemId) -> bool {
    stacks_have_item(r.ingredients@, item) || stacks_have_item(r.products@, item)
}

/// Every touched item, once, in ascending id order, with its net change per
/// run of the recipe.
pub open spec fn net_deltas_spec(r: Recipe, out: Seq<(ItemId, i128)>) -> bool {
    &&& forall|a: int, b: int| 0 <= a < b < out.len() ==> (#[trigger] out[a]).0.raw() < (#[trigger] out[b]).0.raw()
    &&& forall|k: int| 0 <= k < out.len() ==> recipe_touches(r, (#[trigger] out[k]).0) && out[k].1 == net_delta(r, out[k].0)
    &&& forall|it: ItemId| recipe_touches(r, it) ==> exists|k: int| 0 <= k < out.len() && (#[trigger] out[k]).0 == it
}

proof fn lemma_stack_sum_bound(stacks: Seq<crate::catalog::Stack>, item: ItemId)
    ensures
        0 <= stack_sum(stacks, item) <= stacks.len() * 0xffff_ffff,
    decreases stacks.len(),
{
    if stacks.len() > 0 {
        lemma_stack_sum_bound(stacks.drop_last(), item);
    }
}

fn sum_for(stacks: &Vec<crate::catalog::Stack>, item: ItemId) -> (s: i128)
    ensures
        s == stack_sum(stacks@, item),
{
    let mut s: i128 = 0;
    let mut i: usize = 0;
    while i < stacks.len()
        invariant
            i <= stacks@.len(),
            s == stack_sum(stacks@.take(i as int), item),
        decreases stacks@.len() - i,
    {
        proof {
            let t = stacks@.take(i + 1);
            assert(t.drop_last() =~= stacks@.take(i as int));
            lemma_stack_sum_bound(stacks@.take(i as int), item);
            assert(stacks@.take(i as int).len() * 0xffff_ffff <= 0xffff_ffff_ffff_ffff * 0xffff_ffff) by (nonlinear_arith)
                requires
                    stacks@.take(i as int).len() <= 0xffff_ffff_ffff_ffff;
        }
        if stacks[i].item == item {
            s = s + stacks[i].count as i128;
        }
        i = i + 1;
    }
    proof {
        assert(stacks@.take(i as int) =~= stacks@);
    }
    s
}

/// Adds `item` to a list of ids kept in ascending order, unless present.
fn insert_sorted_unique(ids: &mut Vec<ItemId>, item: ItemId)
    requires
        forall|a: int, b: int| 0 <= a < b < old(ids)@.len() ==> (#[trigger] old(ids)@[a]).raw() < (#[trigger] old(ids)@[b]).raw(),
    ensures
        forall|a: int, b: int| 0 <= a < b < final(ids)@.len() ==> (#[trigger] final(ids)@[a]).raw() < (#[trigger] final(ids)@[b]).raw(),
        forall|x: ItemId| #[trigger] final(ids)@.contains(x) <==> (x == item || old(ids)@.contains(x)),
{
    let raw = item.as_u32();
    let mut i: usize = 0;
    while i < ids.len() && ids[i].as_u32() < raw
        invariant
            i <= ids@.len(),
            ids@ == old(ids)@,
            raw == item.raw(),
            forall|k: int| 0 <= k < i ==> (#[trigger] ids@[k]).raw() < raw,
        decreases ids@.len() - i,
    {
        i = i + 1;
    }
    if i < ids.len() && ids[i].as_u32() == raw {
        proof {
            ids@[i as int].lemma_raw_injective(item);
        }
        return;
    }
    let ghost before = ids@;
    ids.insert(i, item);
    proof {
        assert forall|a: int, b: int| 0 <= a < b < ids@.len() implies (#[trigger] ids@[a]).raw() < (#[trigger] ids@[b]).raw() by {
            if b < i {
                assert(ids@[a] == before[a] && ids@[b] == before[b]);
            } else if b == i {
                assert(ids@[a] == before[a]);
            } else if a == i {
                assert(ids@[b] == before[b - 1]);
                assert(before[i as int].raw() > raw);
                if b - 1 > i {
                    assert(before[i as int].raw() < before[b - 1].raw());
                }
            } else if a < i {
                assert(ids@[a] == before[a] && ids@[b] == before[b - 1]);
            } else {
                assert(ids@[a] == before[a - 1] && ids@[b] == before[b - 1]);
            }
        }
        assert forall|x: ItemId| #[trigger] ids@.contains(x) <==> (x == item || before.contains(x)) by {
            if exists|k: int| 0 <= k < before.len() && #[trigger] before[k] == x {
                let k = choose|k: int| 0 <= k < before.len() && #[trigger] before[k] == x;
                if k < i {
                    assert(ids@[k] == x);
                } else {
                    assert(ids@[k + 1] == x);
                }
            }
            if exists|k: int| 0 <= k < ids@.len() && #[trigger] ids@[k] == x {
                let k = choose|k: int| 0 <= k < ids@.len() && #[trigger] ids@[k] == x;
                if k < i {
                    assert(before[k] == x);
                } else if k > i {
                    assert(before[k - 1] == x);
                }
            }
            assert(ids@[i as int] == item);
        }
    }
}

fn collect_items(ids: &mut Vec<ItemId>, stacks: &Vec<crate::catalog::Stack>)
    requires
        forall|a: int, b: int| 0 <= a < b < old(ids)@.len() ==> (#[trigger] old(ids)@[a]).raw() < (#[trigger] old(ids)@[b]).raw(),
    ensures
        forall|a: int, b: int| 0 <= a < b < final(ids)@.len() ==> (#[trigger] final(ids)@[a]).raw() < (#[trigger] final(ids)@[b]).raw(),
        forall|x: ItemId| #[trigger] final(ids)@.contains(x) <==> (stacks_have_item(stacks@, x) || old(ids)@.contains(x)),
{
    let mut i: usize = 0;
    while i < stacks.len()
        invariant
            i <= stacks@.len(),
            forall|a: int, b: int| 0 <= a < b < ids@.len() ==> (#[trigger] ids@[a]).raw() < (#[trigger] ids@[b]).raw(),
            forall|x: ItemId| #[trigger] ids@.contains(x) <==> (stacks_have_item(stacks@.take(i as int), x) || old(ids)@.contains(x)),
        decreases stacks@.len() - i,
    {
        let ghost before = ids@;
        insert_sorted_unique(ids, stacks[i].item);
        proof {
            let t = stacks@.take(i + 1);
            let p = stacks@.take(i as int);
            assert forall|x: ItemId| #[trigger] ids@.contains(x) <==> (stacks_have_item(t, x) || old(ids)@.contains(x)) by {
                if stacks_have_item(t, x) {
                    let k = choose|k: int| 0 <= k < t.len() && (#[trigger] t[k]).item == x;
                    if k < i {
                        assert(p[k] == t[k]);
                    } else {
                        assert(t[k] == stacks@[i as int]);
                    }
                }
                if stacks_have_item(p, x) {
                    let k = choose|k: int| 0 <= k < p.len() && (#[trigger] p[k]).item == x;
                    assert(t[k] == p[k]);
                }
                if x == stacks@[i as int].item {
                    assert(t[i as int] == stacks@[i as int]);
                }
            }
        }
        i = i + 1;
    }
    proof {
        assert(stacks@.take(i as int) =~= stacks@);
    }
}

/// Some stack of the list is of `item`.
pub open spec fn stacks_have_item(stacks: Seq<crate::catalog::Stack>, item: ItemId) -> bool {
    exists|k: int| 0 <= k < stacks.len() && (#[trigger] stacks[k]).item == item
}

/// Net change of each item per run of a recipe (products minus
/// ingredients), one entry per item the recipe touches, in ascending id
/// order. An item that is both consumed and produced in equal amounts has
/// a zero entry.
pub fn recipe_net_deltas(recipe: &Recipe) -> (out: Vec<(ItemId, i128)>)
    ensures
        net_deltas_spec(*recipe, out@),
{
    let mut ids: Vec<ItemId> = Vec::new();
    collect_items(&mut ids, &recipe.ingredients);
    collect_items(&mut ids, &recipe.products);
    let mut out: Vec<(ItemId, i128)> = Vec::new();
    let mut i: usize = 0;
    while i < ids.len()
        invariant
            i <= ids@.len(),
            out@.len() == i,
            forall|a: int, b: int| 0 <= a < b < ids@.len() ==> (#[trigger] ids@[a]).raw() < (#[trigger] ids@[b]).raw(),
            forall|k: int| 0 <= k < i ==> (#[trigger] out@[k]).0 == ids@[k] && out@[k].1 == net_delta(*recipe, ids@[k]),
        decreases ids@.len() - i,
    {
        let item = ids[i];
        let made = sum_for(&recipe.products, item);
        let used = sum_for(&recipe.ingredients, item);
        let n_products = recipe.products.len();
        let n_ingredients = recipe.ingredients.len();
        proof {
            lemma_stack_sum_bound(recipe.products@, item);
            lemma_stack_sum_bound(recipe.ingredients@, item);
            assert(recipe.products@.len() * 0xffff_ffff <= 0xffff_ffff_ffff_ffff * 0xffff_ffff) by (nonlinear_arith)
                requires
                    recipe.products@.len() <= 0xffff_ffff_ffff_ffff;
            assert(recipe.ingredients@.len() * 0xffff_ffff <= 0xffff_ffff_ffff_ffff * 0xffff_ffff) by (nonlinear_arith)
                requires
                    recipe.ingredients@.len() <= 0xffff_ffff_ffff_ffff;
        }
        out.push((item, made - used));
        i = i + 1;
    }
    proof {
        assert forall|k: int| 0 <= k < out@.len() implies recipe_touches(*recipe, (#[trigger] out@[k]).0) by {
            let x = out@[k].0;
            assert(ids@[k] == x);
            assert(ids@.contains(x));
        }
        assert forall|it: ItemId| recipe_touches(*recipe, it) implies exists|k: int| 0 <= k < out@.len() && (#[trigger] out@[k]).0 == it by {
            assert(ids@.contains(it));
            let k = choose|k: int| 0 <= k < ids@.len() && ids@[k] == it;
            assert(out@[k].0 == it);
        }
        assert forall|a: int, b: int| 0 <= a < b < out@.len() implies (#[trigger] out@[a]).0.raw() < (#[trigger] out@[b]).0.raw() by {
            assert(out@[a].0 == ids@[a] && out@[b].0 == ids@[b]);
        }
    }
    out
}


// ---------------------------------------------------------------------------
// Stage-2 objective
// ---------------------------------------------------------------------------

/// What the second stage optimizes, given which objective weights are on.
#[derive(Debug, Clone, Copy, PartialEq, Eq, Structural)]
pub enum Stage2Choice {
    /// No weight is on: the first stage's plan is kept.
    KeepStage1,
    /// Only the machine count is minimized.
    MinMachines,
    /// Only the power slack is maximized.
    MaxPowerSlack,
    /// Only the money slack is maximized.
    MaxMoneySlack,
    /// Several targets are on: their weighted sum is optimized.
    Weighted,
}

/// Number of objective weights that are on.
pub open spec fn targets_on(min_machines: bool, max_power_slack: bool, max_money_slack: bool) -> int {
    (if min_machines { 1int } else { 0int }) + (if max_power_slack { 1int } else { 0int }) + (if max_money_slack {
        1int
    } else {
        0int
    })
}

/// The second stage: the first stage's plan when no weight is on, the one
/// target when exactly one is on, a weighted objective otherwise.
pub open spec fn spec_stage2_choice(min_machines: bool, max_power_slack: bool, max_money_slack: bool) -> Stage2Choice {
    let n = targets_on(min_machines, max_power_slack, max_money_slack);
    if n == 0 {
        Stage2Choice::KeepStage1
    } else if n >= 2 {
        Stage2Choice::Weighted
    } else if min_machines {
        Stage2Choice::MinMachines
    } else if max_power_slack {
        Stage2Choice::MaxPowerSlack
    } else {
        Stage2Choice::MaxMoneySlack
    }
}

/// Chooses the second stage from which objective weights are on (see
/// [`spec_stage2_choice`]).
pub fn stage2_choice(min_machines: bool, max_power_slack: bool, max_money_slack: bool) -> (c: Stage2Choice)
    ensures
        c == spec_stage2_choice(min_machines, max_power_slack, max_money_slack),
        (min_machines && max_power_slack) || (min_machines && max_money_slack) || (max_power_slack
            && max_money_slack) ==> c == Stage2Choice::Weighted,
        !min_machines && !max_power_slack && !max_money_slack ==> c == Stage2Choice::KeepStage1,
        min_machines && !max_power_slack && !max_money_slack ==> c == Stage2Choice::MinMachines,
        !min_machines && max_power_slack && !max_money_slack ==> c == Stage2Choice::MaxPowerSlack,
        !min_machines && !max_power_slack && max_money_slack ==> c == Stage2Choice::MaxMoneySlack,
{
    let mut n: u8 = 0;
    if min_machines {
        n = n + 1;
    }
    if max_power_slack {
        n = n + 1;
    }
    if max_money_slack {
        n = n + 1;
    }
    if n == 0 {
        Stage2Choice::KeepStage1
    } else if n >= 2 {
        Stage2Choice::Weighted
    } else if min_machines {
        Stage2Choice::MinMachines
    } else if max_power_slack {
        Stage2Choice::MaxPowerSlack
    } else {
        Stage2Choice::MaxMoneySlack
    }
}

/// Which objective weights are on decides the second stage: none keeps the
/// first stage's plan, exactly one optimizes that one target, and any two or
/// all three, whichever they are, optimize the weighted objective.
pub proof fn law_stage2_choice_by_weights(min_machines: bool, max_power_slack: bool, max_money_slack: bool)
    ensures
        (min_machines && max_power_slack) || (min_machines && max_money_slack) || (max_power_slack
            && max_money_slack) ==> spec_stage2_choice(min_machines, max_power_slack, max_money_slack)
            == Stage2Choice::Weighted,
        !min_machines && !max_power_slack && !max_money_slack ==> spec_stage2_choice(
            min_machines,
            max_power_slack,
            max_money_slack,
        ) == Stage2Choice::KeepStage1,
        min_machines && !max_power_slack && !max_money_slack ==> spec_stage2_choice(
            min_machines,
            max_power_slack,
            max_money_slack,
        ) == Stage2Choice::MinMachines,
        !min_machines && max_power_slack && !max_money_slack ==> spec_stage2_choice(
            min_machines,
            max_power_slack,
            max_money_slack,
        ) == Stage2Choice::MaxPowerSlack,
        !min_machines && !max_power_slack && max_money_slack ==> spec_stage2_choice(
            min_machines,
            max_power_slack,
            max_money_slack,
        ) == Stage2Choice::MaxMoneySlack,
{
}

// ---------------------------------------------------------------------------
// Items a plan touches
// ---------------------------------------------------------------------------

/// Item ids in strictly ascending order.
pub open spec fn items_ascending(s: Seq<ItemId>) -> bool {
    forall|a: int, b: int| 0 <= a < b < s.len() ==> (#[trigger] s[a]).raw() < (#[trigger] s[b]).raw()
}

fn insert_item(v: &mut Vec<ItemId>, x: ItemId)
    requires
        items_ascending(old(v)@),
    ensures
        items_ascending(final(v)@),
        forall|y: ItemId| #[trigger] final(v)@.contains(y) <==> (y == x || old(v)@.contains(y)),
{
    let mut i: usize = 0;
    while i < v.len() && v[i].as_u32() < x.as_u32()
        invariant
            i <= v@.len(),
            v@ == old(v)@,
            forall|k: int| 0 <= k < i ==> (#[trigger] v@[k]).raw() < x.raw(),
        decreases v@.len() - i,
    {
        i = i + 1;
    }
    if i < v.len() && v[i].as_u32() == x.as_u32() {
        proof {
            v@[i as int].lemma_raw_injective(x);
            assert forall|y: ItemId| #[trigger] v@.contains(y) <==> (y == x || old(v)@.contains(y)) by {
                if y == x {
                    assert(v@[i as int] == y);
                }
            }
        }
        return;
    }
    let ghost before = v@;
    v.insert(i, x);
    proof {
        assert forall|a: int, b: int| 0 <= a < b < v@.len() implies (#[trigger] v@[a]).raw() < (
        #[trigger] v@[b]).raw() by {
            if b < i {
                assert(v@[a] == before[a] && v@[b] == before[b]);
            } else if b == i {
                assert(v@[a] == before[a]);
            } else if a == i {
                assert(v@[b] == before[b - 1]);
                if b - 1 > i {
                    assert(before[i as int].raw() < before[b - 1].raw());
                }
                if b - 1 == i {
                    assert(before[i as int].raw() >= x.raw());
                    if before[i as int].raw() == x.raw() {
                        before[i as int].lemma_raw_injective(x);
                    }
                }
            } else if a < i {
                assert(v@[a] == before[a] && v@[b] == before[b - 1]);
            } else {
                assert(v@[a] == before[a - 1] && v@[b] == before[b - 1]);
            }
        }
        assert forall|y: ItemId| #[trigger] v@.contains(y) <==> (y == x || before.contains(y)) by {
            if before.contains(y) {
                let k = choose|k: int| 0 <= k < before.len() && before[k] == y;
                if k < i {
                    assert(v@[k] == y);
                } else {
                    assert(v@[k + 1] == y);
                }
            }
            if v@.contains(y) {
                let k = choose|k: int| 0 <= k < v@.len() && v@[k] == y;
                if k < i {
                    assert(before[k] == y);
                } else if k > i {
                    assert(before[k - 1] == y);
                }
            }
            assert(v@[i as int] == x);
        }
    }
}

/// The items of a list, each once, in ascending id order: the items a
/// stage touches, whose warehouse stockpiles are read back.
pub fn distinct_items_ascending(items: &Vec<ItemId>) -> (r: Vec<ItemId>)
    ensures
        items_ascending(r@),
        forall|x: ItemId| #[trigger] r@.contains(x) <==> items@.contains(x),
{
    let mut r: Vec<ItemId> = Vec::new();
    let mut i: usize = 0;
    while i < items.len()
        invariant
            i <= items@.len(),
            items_ascending(r@),
            forall|x: ItemId| #[trigger] r@.contains(x) <==> items@.take(i as int).contains(x),
        decreases items@.len() - i,
    {
        let ghost before = r@;
        insert_item(&mut r, items[i]);
        proof {
            assert forall|x: ItemId| #[trigger] r@.contains(x) <==> items@.take(i + 1).contains(x) by {
                let t = items@.take(i + 1);
                if t.contains(x) {
                    let k = choose|k: int| 0 <= k < t.len() && t[k] == x;
                    if k < i {
                        assert(items@.take(i as int)[k] == x);
                    }
                }
                if items@.take(i as int).contains(x) {
                    let k = choose|k: int| 0 <= k < i && items@.take(i as int)[k] == x;
                    assert(t[k] == x);
                }
                assert(t[i as int] == items@[i as int]);
            }
        }
        i = i + 1;
    }
    proof {
        assert(items@.take(i as int) =~= items@);
    }
    r
}

} // verus!
