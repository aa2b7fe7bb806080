//! A small catalog of item keys with dense ids, scenario supply resolved
//! against it, and a per-item vector indexed by those ids.
//!
//! Ids carry no compile-time link to their catalog here; every lookup that
//! could leave the catalog's range is checked, or required to stay in it.

use vstd::prelude::*;

use crate::strings::{str_eq, string_of};

verus! {

/// Identifier of an item: its index in the catalog.
#[derive(Debug, Clone, Copy, PartialEq, Eq, Structural, Hash, PartialOrd, Ord)]
pub struct ItemId {
    index: usize,
}

impl ItemId {
    pub closed spec fn spec_index(self) -> usize {
        self.index
    }

    /// The item's index in its catalog.
    pub fn index(self) -> (r: usize)
        ensures
            r == self.spec_index(),
    {
        self.index
    }
}

/// Why an item could not be added.
#[derive(Debug, PartialEq, Eq)]
pub enum BuildError {
    DuplicateItemKey(String),
}

/// Keys of a list are pairwise different.
pub open spec fn keys_unique(keys: Seq<Seq<char>>) -> bool {
    forall|i: int, j: int| 0 <= i < j < keys.len() ==> #[trigger] keys[i] != #[trigger] keys[j]
}

/// The views of a list of strings.
pub open spec fn key_views(v: Seq<String>) -> Seq<Seq<char>> {
    v.map_values(|s: String| s@)
}

fn find_key(items: &Vec<String>, key: &str) -> (r: Option<usize>)
    ensures
        match r {
            Some(i) => i < items@.len() && items@[i as int]@ == key@,
            None => forall|i: int| 0 <= i < items@.len() ==> (#[trigger] items@[i])@ != key@,
        },
{
    let mut i: usize = 0;
    while i < items.len()
        invariant
            i <= items@.len(),
            forall|j: int| 0 <= j < i ==> (#[trigger] items@[j])@ != key@,
        decreases items@.len() - i,
    {
        if str_eq(items[i].as_str(), key) {
            return Some(i);
        }
        i = i + 1;
    }
    None
}

/// Builds a catalog by adding items one key at a time.
#[derive(Debug)]
pub struct CatalogBuilder {
    items: Vec<String>,
}

impl CatalogBuilder {
    /// The keys added so far, in id order.
    pub closed spec fn spec_keys(&self) -> Seq<Seq<char>> {
        key_views(self.items@)
    }

    #[verifier::type_invariant]
    closed spec fn inv(&self) -> bool {
        keys_unique(key_views(self.items@))
    }

    /// No items yet.
    pub fn new() -> (b: CatalogBuilder)
        ensures
            b.spec_keys().len() == 0,
    {
        CatalogBuilder { items: Vec::new() }
    }

    /// Adds an item and returns its id, the next index; refused when the key
    /// was added before.
    pub fn add_item(&mut self, key: String) -> (r: Result<ItemId, BuildError>)
        ensures
            match r {
                Ok(id) => {
                    &&& !old(self).spec_keys().contains(key@)
                    &&& id.spec_index() == old(self).spec_keys().len()
                    &&& final(self).spec_keys() == old(self).spec_keys().push(key@)
                },
                Err(BuildError::DuplicateItemKey(k)) => {
                    &&& old(self).spec_keys().contains(key@)
                    &&& k@ == key@
                    &&& final(self).spec_keys() == old(self).spec_keys()
                },
            },
    {
        proof {
            use_type_invariant(&*self);
        }
        if let Some(i) = find_key(&self.items, key.as_str()) {
            proof {
                assert(key_views(self.items@)[i as int] == key@);
            }
            return Err(BuildError::DuplicateItemKey(key));
        }
        let id = ItemId { index: self.items.len() };
        let mut items: Vec<String> = Vec::new();
        std::mem::swap(&mut items, &mut self.items);
        let ghost before = key_views(items@);
        let ghost kv = key@;
        items.push(key);
        proof {
            assert(key_views(items@) =~= before.push(kv));
            if before.contains(kv) {
                let j = choose|j: int| 0 <= j < before.len() && before[j] == kv;
                assert(items@[j]@ == kv);
            }
        }
        self.items = items;
        Ok(id)
    }

    /// The catalog with the items added.
    pub fn build(self) -> (c: Catalog)
        ensures
            c.spec_keys() == self.spec_keys(),
    {
        proof {
            use_type_invariant(&self);
        }
        Catalog { items: self.items }
    }
}

/// Item keys, indexed by item id.
#[derive(Debug)]
pub struct Catalog {
    items: Vec<String>,
}

impl Catalog {
    /// The keys, in id order.
    pub closed spec fn spec_keys(&self) -> Seq<Seq<char>> {
        key_views(self.items@)
    }

    #[verifier::type_invariant]
    closed spec fn inv(&self) -> bool {
        keys_unique(key_views(self.items@))
    }

    /// Number of items.
    pub fn item_count(&self) -> (n: usize)
        ensures
            n == self.spec_keys().len(),
    {
        self.items.len()
    }

    /// The id of the item with key `key`.
    pub fn item_id(&self, key: &str) -> (r: Option<ItemId>)
        ensures
            match r {
                Some(id) => id.spec_index() < self.spec_keys().len() && self.spec_keys()[id.spec_index() as int] == key@,
                None => !self.spec_keys().contains(key@),
            },
    {
        match find_key(&self.items, key) {
            Some(i) => Some(ItemId { index: i }),
            None => {
                proof {
                    if self.spec_keys().contains(key@) {
                        let j = choose|j: int| 0 <= j < self.spec_keys().len() && self.spec_keys()[j] == key@;
                        assert(self.items@[j]@ == key@);
                    }
                }
                None
            },
        }
    }

    /// The key of an item of this catalog.
    pub fn item_key(&self, item: ItemId) -> (s: &str)
        requires
            item.spec_index() < self.spec_keys().len(),
        ensures
            s@ == self.spec_keys()[item.spec_index() as int],
    {
        self.items[item.index].as_str()
    }
}

/// Why scenario supply could not be resolved.
#[derive(Debug, PartialEq, Eq)]
pub enum AicParseError {
    UnknownItemKey(String),
}

/// Scenario supply, by item id.
#[derive(Debug)]
pub struct AicInputs {
    supply_per_min: Vec<(ItemId, u32)>,
}

impl AicInputs {
    /// The supply lines, in input order.
    pub closed spec fn spec_supply(&self) -> Seq<(ItemId, u32)> {
        self.supply_per_min@
    }

    /// Resolves supply lines `(item key, quantity per minute)` against the
    /// catalog, in order; refused at the first unknown key.
    pub fn parse(catalog: &Catalog, raw_supply: &Vec<(String, u32)>) -> (r: Result<AicInputs, AicParseError>)
        ensures
            match r {
                Ok(a) => {
                    &&& a.spec_supply().len() == raw_supply@.len()
                    &&& forall|k: int| 0 <= k < raw_supply@.len() ==> {
                        &&& (#[trigger] a.spec_supply()[k]).0.spec_index() < catalog.spec_keys().len()
                        &&& catalog.spec_keys()[a.spec_supply()[k].0.spec_index() as int] == raw_supply@[k].0@
                        &&& a.spec_supply()[k].1 == raw_supply@[k].1
                    }
                },
                Err(AicParseError::UnknownItemKey(key)) => exists|k: int| 0 <= k < raw_supply@.len()
                    && (#[trigger] raw_supply@[k]).0@ == key@ && !catalog.spec_keys().contains(key@)
                    && forall|j: int| 0 <= j < k ==> catalog.spec_keys().contains((#[trigger] raw_supply@[j]).0@),
            },
    {
        let mut supply: Vec<(ItemId, u32)> = Vec::new();
        let mut k: usize = 0;
        while k < raw_supply.len()
            invariant
                k <= raw_supply@.len(),
                supply@.len() == k,
                forall|j: int| 0 <= j < k ==> {
                    &&& (#[trigger] supply@[j]).0.spec_index() < catalog.spec_keys().len()
                    &&& catalog.spec_keys()[supply@[j].0.spec_index() as int] == raw_supply@[j].0@
                    &&& supply@[j].1 == raw_supply@[j].1
                },
            decreases raw_supply@.len() - k,
        {
            let (key, qty) = (&raw_supply[k].0, raw_supply[k].1);
            match catalog.item_id(key.as_str()) {
                Some(item) => {
                    supply.push((item, qty));
                },
                None => {
                    proof {
                        assert forall|j: int| 0 <= j < k implies catalog.spec_keys().contains((#[trigger] raw_supply@[j]).0@) by {
                            assert(catalog.spec_keys()[supply@[j].0.spec_index() as int] == raw_supply@[j].0@);
                        }
                    }
                    return Err(AicParseError::UnknownItemKey(string_of(key.as_str())));
                },
            }
            k = k + 1;
        }
        Ok(AicInputs { supply_per_min: supply })
    }

    /// The supply lines, in input order.
    pub fn supply_per_min(&self) -> (r: &[(ItemId, u32)])
        ensures
            r@ == self.spec_supply(),
    {
        self.supply_per_min.as_slice()
    }
}

/// One value per item of a catalog, indexed by item id.
#[derive(Debug)]
pub struct ItemVec<T> {
    values: Vec<T>,
}

impl<T: Copy> ItemVec<T> {
    /// The values, in item id order.
    pub closed spec fn spec_values(&self) -> Seq<T> {
        self.values@
    }

    /// `value` for every item of the catalog.
    pub fn filled(catalog: &Catalog, value: T) -> (v: ItemVec<T>)
        ensures
            v.spec_values() == Seq::new(catalog.spec_keys().len(), |i: int| value),
    {
        let n = catalog.item_count();
        let mut values: Vec<T> = Vec::new();
        let mut i: usize = 0;
        while i < n
            invariant
                i <= n,
                values@ == Seq::new(i as nat, |j: int| value),
            decreases n - i,
        {
            values.push(value);
            proof {
                assert(values@ =~= Seq::new((i + 1) as nat, |j: int| value));
            }
            i = i + 1;
        }
        ItemVec { values }
    }

    /// The value of `item`.
    pub fn get(&self, item: ItemId) -> (r: T)
        requires
            item.spec_index() < self.spec_values().len(),
        ensures
            r == self.spec_values()[item.spec_index() as int],
    {
        self.values[item.index]
    }

    /// Sets the value of `item`.
    pub fn set(&mut self, item: ItemId, value: T)
        requires
            item.spec_index() < old(self).spec_values().len(),
        ensures
            final(self).spec_values() == old(self).spec_values().update(item.spec_index() as int, value),
    {
        self.values.set(item.index, value);
    }

    /// The values, in item id order.
    pub fn as_slice(&self) -> (r: &[T])
        ensures
            r@ == self.spec_values(),
    {
        self.values.as_slice()
    }
}

/// Total supply of the item at `index` over the first `n` lines.
pub open spec fn supply_total(lines: Seq<(ItemId, u32)>, index: int) -> int
    decreases lines.len(),
{
    if lines.len() == 0 {
        0
    } else {
        supply_total(lines.drop_last(), index) + if lines.last().0.spec_index() == index {
            lines.last().1 as int
        } else {
            0
        }
    }
}

proof fn lemma_supply_total_bound(lines: Seq<(ItemId, u32)>, index: int)
    ensures
        0 <= supply_total(lines, index) <= lines.len() * 0xffff_ffff,
    decreases lines.len(),
{
    if lines.len() > 0 {
        lemma_supply_total_bound(lines.drop_last(), index);
    }
}

/// The balance of each item: the total of its supply lines.
pub fn run_solver(catalog: &Catalog, aic: &AicInputs) -> (balance: ItemVec<i64>)
    requires
        forall|k: int| 0 <= k < aic.spec_supply().len() ==> (#[trigger] aic.spec_supply()[k]).0.spec_index()
            < catalog.spec_keys().len(),
        aic.spec_supply().len() <= 0x7fff_ffff,
    ensures
        balance.spec_values().len() == catalog.spec_keys().len(),
        forall|i: int| 0 <= i < catalog.spec_keys().len() ==> #[trigger] balance.spec_values()[i] == supply_total(aic.spec_supply(), i),
{
    let mut balance = ItemVec::filled(catalog, 0i64);
    let lines = aic.supply_per_min();
    let mut k: usize = 0;
    while k < lines.len()
        invariant
            k <= lines@.len() <= 0x7fff_ffff,
            lines@ == aic.spec_supply(),
            forall|j: int| 0 <= j < lines@.len() ==> (#[trigger] lines@[j]).0.spec_index() < catalog.spec_keys().len(),
            balance.spec_values().len() == catalog.spec_keys().len(),
            forall|i: int| 0 <= i < catalog.spec_keys().len() ==> #[trigger] balance.spec_values()[i] == supply_total(lines@.take(k as int), i),
        decreases lines@.len() - k,
    {
        let (item, qty) = lines[k];
        let ghost t = lines@.take(k + 1);
        proof {
            assert(t.drop_last() =~= lines@.take(k as int));
            assert(t.last() == lines@[k as int]);
            lemma_supply_total_bound(lines@.take(k as int), item.spec_index() as int);
            assert(k * 0xffff_ffff <= 0x7fff_ffff * 0xffff_ffff) by (nonlinear_arith)
                requires
                    k <= 0x7fff_ffff;
        }
        let cur = balance.get(item);
        balance.set(item, cur + qty as i64);
        k = k + 1;
    }
    proof {
        assert(lines@.take(k as int) =~= lines@);
    }
    balance
}

} // verus!
