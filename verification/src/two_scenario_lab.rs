//! One catalog shared by several scenarios: item ids are reused across
//! scenarios, outpost ids belong to one scenario, and a report reads both.

use vstd::prelude::*;

use crate::strings::{push_str, str_eq, string_of};

verus! {

/// Identifier of a catalog item.
#[derive(Debug, Clone, Copy, PartialEq, Eq, Structural, Hash)]
pub struct ItemId {
    raw: u32,
}

impl ItemId {
    pub closed spec fn raw(self) -> u32 {
        self.raw
    }

    /// The id's number.
    pub fn as_u32(self) -> (r: u32)
        ensures
            r == self.raw(),
    {
        self.raw
    }
}

/// Identifier of an outpost of one scenario.
#[derive(Debug, Clone, Copy, PartialEq, Eq, Structural, Hash)]
pub struct OutpostId {
    raw: u32,
}

impl OutpostId {
    pub closed spec fn raw(self) -> u32 {
        self.raw
    }

    /// The id's number.
    pub fn as_u32(self) -> (r: u32)
        ensures
            r == self.raw(),
    {
        self.raw
    }
}

/// The catalog's item keys: `ore` and `ingot`.
pub open spec fn lab_keys() -> Seq<Seq<char>> {
    seq!["ore"@, "ingot"@]
}

/// A fixed catalog of two items.
#[derive(Debug)]
pub struct Catalog {
    item_keys: Vec<&'static str>,
}

impl Catalog {
    /// The item keys, in id order.
    pub closed spec fn spec_keys(&self) -> Seq<Seq<char>> {
        self.item_keys@.map_values(|s: &'static str| s@)
    }

    #[verifier::type_invariant]
    closed spec fn inv(&self) -> bool {
        self.item_keys@.len() == 2
    }

    /// The catalog of `ore` and `ingot`.
    pub fn build() -> (c: Catalog)
        ensures
            c.spec_keys() == lab_keys(),
    {
        let mut item_keys: Vec<&'static str> = Vec::new();
        item_keys.push("ore");
        item_keys.push("ingot");
        let c = Catalog { item_keys };
        proof {
            assert(c.spec_keys() =~= lab_keys());
        }
        c
    }

    /// The id of the first item with key `key`.
    pub fn item_id(&self, key: &str) -> (r: Option<ItemId>)
        ensures
            match r {
                Some(id) => id.raw() < self.spec_keys().len() && self.spec_keys()[id.raw() as int] == key@
                    && forall|j: int| 0 <= j < id.raw() ==> self.spec_keys()[j] != key@,
                None => !self.spec_keys().contains(key@),
            },
    {
        proof {
            use_type_invariant(self);
        }
        let mut i: usize = 0;
        while i < self.item_keys.len()
            invariant
                i <= self.item_keys@.len() <= 2,
                forall|j: int| 0 <= j < i ==> self.spec_keys()[j] != key@,
            decreases self.item_keys@.len() - i,
        {
            if str_eq(self.item_keys[i], key) {
                return Some(ItemId { raw: i as u32 });
            }
            i = i + 1;
        }
        None
    }

    /// The key of an item, when the catalog has it.
    pub fn item_key(&self, id: ItemId) -> (r: Option<&'static str>)
        ensures
            match r {
                Some(k) => id.raw() < self.spec_keys().len() && k@ == self.spec_keys()[id.raw() as int],
                None => id.raw() >= self.spec_keys().len(),
            },
    {
        if (id.raw as usize) < self.item_keys.len() {
            Some(self.item_keys[id.raw as usize])
        } else {
            None
        }
    }
}

/// An outpost and the item it buys.
#[derive(Debug, Clone, Copy, PartialEq, Eq, Structural)]
pub struct OutpostInput {
    pub sale_item: ItemId,
}

/// Why a scenario was refused.
#[derive(Debug, PartialEq, Eq)]
pub enum ParseError {
    UnknownItem(String),
    NoOutpost,
}

/// Why a scenario could not be solved.
#[derive(Debug, Clone, Copy, PartialEq, Eq, Structural)]
pub enum SolveError {
    NoOutpost,
}

/// Why a report could not be written.
#[derive(Debug, Clone, Copy, PartialEq, Eq, Structural)]
pub enum ReportError {
    NoSale,
    MissingOutpost(u32),
    MissingItem(u32),
}

/// A scenario: its outposts.
#[derive(Debug)]
pub struct AicInputs {
    outposts: Vec<OutpostInput>,
}

impl AicInputs {
    /// The outposts, in id order.
    pub closed spec fn spec_outposts(&self) -> Seq<OutpostInput> {
        self.outposts@
    }

    /// A scenario whose outposts buy the items with the given keys, in
    /// order; refused at the first unknown key, or when there is no outpost.
    pub fn parse(catalog: &Catalog, raw_outpost_sale_items: &[&str]) -> (r: Result<AicInputs, ParseError>)
        requires
            raw_outpost_sale_items@.len() <= u32::MAX,
        ensures
            match r {
                Ok(a) => {
                    &&& raw_outpost_sale_items@.len() > 0
                    &&& a.spec_outposts().len() == raw_outpost_sale_items@.len()
                    &&& forall|k: int| 0 <= k < raw_outpost_sale_items@.len() ==> {
                        &&& (#[trigger] a.spec_outposts()[k]).sale_item.raw() < catalog.spec_keys().len()
                        &&& catalog.spec_keys()[a.spec_outposts()[k].sale_item.raw() as int] == raw_outpost_sale_items@[k]@
                    }
                },
                Err(ParseError::UnknownItem(key)) => exists|k: int| 0 <= k < raw_outpost_sale_items@.len()
                    && (#[trigger] raw_outpost_sale_items@[k])@ == key@ && !catalog.spec_keys().contains(key@),
                Err(ParseError::NoOutpost) => raw_outpost_sale_items@.len() == 0,
            },
    {
        let mut outposts: Vec<OutpostInput> = Vec::new();
        let mut k: usize = 0;
        while k < raw_outpost_sale_items.len()
            invariant
                k <= raw_outpost_sale_items@.len(),
                outposts@.len() == k,
                forall|j: int| 0 <= j < k ==> {
                    &&& (#[trigger] outposts@[j]).sale_item.raw() < catalog.spec_keys().len()
                    &&& catalog.spec_keys()[outposts@[j].sale_item.raw() as int] == raw_outpost_sale_items@[j]@
                },
            decreases raw_outpost_sale_items@.len() - k,
        {
            let key = raw_outpost_sale_items[k];
            match catalog.item_id(key) {
                Some(sale_item) => outposts.push(OutpostInput { sale_item }),
                None => return Err(ParseError::UnknownItem(string_of(key))),
            }
            k = k + 1;
        }
        if outposts.len() == 0 {
            return Err(ParseError::NoOutpost);
        }
        Ok(AicInputs { outposts })
    }

    /// An outpost by id, when the scenario has it.
    pub fn outpost(&self, id: OutpostId) -> (r: Option<OutpostInput>)
        ensures
            match r {
                Some(o) => id.raw() < self.spec_outposts().len() && o == self.spec_outposts()[id.raw() as int],
                None => id.raw() >= self.spec_outposts().len(),
            },
    {
        if (id.raw as usize) < self.outposts.len() {
            Some(self.outposts[id.raw as usize])
        } else {
            None
        }
    }

    /// The outposts with their ids, in id order.
    pub fn outposts_with_id(&self) -> (r: Vec<(OutpostId, OutpostInput)>)
        requires
            self.spec_outposts().len() <= u32::MAX,
        ensures
            r@.len() == self.spec_outposts().len(),
            forall|k: int| 0 <= k < r@.len() ==> (#[trigger] r@[k]).0.raw() == k && r@[k].1 == self.spec_outposts()[k],
    {
        let mut r: Vec<(OutpostId, OutpostInput)> = Vec::new();
        let mut k: usize = 0;
        while k < self.outposts.len()
            invariant
                k <= self.outposts@.len() <= u32::MAX,
                r@.len() == k,
                forall|j: int| 0 <= j < k ==> (#[trigger] r@[j]).0.raw() == j && r@[j].1 == self.outposts@[j],
            decreases self.outposts@.len() - k,
        {
            r.push((OutpostId { raw: k as u32 }, self.outposts[k]));
            k = k + 1;
        }
        r
    }
}

/// One sale line of a plan.
#[derive(Debug, Clone, Copy, PartialEq, Eq, Structural)]
pub struct OutpostSaleQty {
    pub outpost_index: OutpostId,
    pub item: ItemId,
}

/// The plan of the second stage.
#[derive(Debug)]
pub struct StageSolution {
    pub outpost_sales_qty: Vec<OutpostSaleQty>,
}

/// The result of solving a scenario.
#[derive(Debug)]
pub struct OptimizationResult {
    pub stage2: StageSolution,
}

/// Solves a scenario: the first outpost buys its item.
pub fn run_two_stage(catalog: &Catalog, aic: &AicInputs) -> (r: Result<OptimizationResult, SolveError>)
    ensures
        match r {
            Ok(res) => aic.spec_outposts().len() > 0 && res.stage2.outpost_sales_qty@.len() == 1
                && res.stage2.outpost_sales_qty@[0].outpost_index.raw() == 0
                && res.stage2.outpost_sales_qty@[0].item == aic.spec_outposts()[0].sale_item,
            Err(e) => aic.spec_outposts().len() == 0 && e == SolveError::NoOutpost,
        },
{
    let first = match aic.outpost(OutpostId { raw: 0 }) {
        Some(o) => o,
        None => return Err(SolveError::NoOutpost),
    };
    let mut lines: Vec<OutpostSaleQty> = Vec::new();
    lines.push(OutpostSaleQty { outpost_index: OutpostId { raw: 0 }, item: first.sale_item });
    Ok(OptimizationResult { stage2: StageSolution { outpost_sales_qty: lines } })
}

/// Writes `report item=<key>` for the item of the plan's first sale.
pub fn build_report(catalog: &Catalog, aic: &AicInputs, result: &OptimizationResult) -> (r: Result<String, ReportError>)
    ensures
        match r {
            Ok(s) => {
                let sale = result.stage2.outpost_sales_qty@[0];
                let o = aic.spec_outposts()[sale.outpost_index.raw() as int];
                &&& result.stage2.outpost_sales_qty@.len() > 0
                &&& sale.outpost_index.raw() < aic.spec_outposts().len()
                &&& o.sale_item.raw() < catalog.spec_keys().len()
                &&& s@ == "report item="@ + catalog.spec_keys()[o.sale_item.raw() as int]
            },
            Err(ReportError::NoSale) => result.stage2.outpost_sales_qty@.len() == 0,
            Err(ReportError::MissingOutpost(i)) => result.stage2.outpost_sales_qty@.len() > 0 && i
                == result.stage2.outpost_sales_qty@[0].outpost_index.raw() && i >= aic.spec_outposts().len(),
            Err(ReportError::MissingItem(i)) => result.stage2.outpost_sales_qty@.len() > 0
                && result.stage2.outpost_sales_qty@[0].outpost_index.raw() < aic.spec_outposts().len() && i
                == aic.spec_outposts()[result.stage2.outpost_sales_qty@[0].outpost_index.raw() as int].sale_item.raw()
                && i >= catalog.spec_keys().len(),
        },
{
    if result.stage2.outpost_sales_qty.len() == 0 {
        return Err(ReportError::NoSale);
    }
    let first_sale = result.stage2.outpost_sales_qty[0];
    let outpost = match aic.outpost(first_sale.outpost_index) {
        Some(o) => o,
        None => return Err(ReportError::MissingOutpost(first_sale.outpost_index.as_u32())),
    };
    let item_key = match catalog.item_key(outpost.sale_item) {
        Some(k) => k,
        None => return Err(ReportError::MissingItem(outpost.sale_item.as_u32())),
    };
    let mut s = string_of("report item=");
    push_str(&mut s, item_key);
    Ok(s)
}

/// Uses an item of the shared catalog with a scenario; there is nothing to
/// compute, the call only shows that item ids work with any scenario.
pub fn use_item_with_aic(catalog: &Catalog, aic: &AicInputs, item: ItemId) {
}

} // verus!
