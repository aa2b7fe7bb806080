//! The nodes of a logistics plan: the places that items flow between.
//!
//! Flows themselves are fractional quantities per minute and are computed
//! outside this library; here each supply or demand site of a per-item flow
//! problem is given its node of the plan-wide graph, so that one node stands
//! for one place however many items pass through it.

use vstd::prelude::*;

use crate::aic::OutpostId;
use crate::catalog::{ItemId, PowerRecipeId, RecipeId};

verus! {

/// Index of a supply node within one item's flow problem.
#[derive(Debug, Clone, Copy, PartialEq, Eq, Structural, Hash, PartialOrd, Ord)]
pub struct SupplyNodeId {
    raw: u32,
}

impl SupplyNodeId {
    pub closed spec fn raw(self) -> u32 {
        self.raw
    }

    /// The id of the supply node at `index`.
    pub fn from_index(index: usize) -> (r: SupplyNodeId)
        requires
            index <= u32::MAX,
        ensures
            r.raw() == index,
    {
        SupplyNodeId { raw: index as u32 }
    }

    /// The id's number.
    pub fn as_u32(self) -> (r: u32)
        ensures
            r == self.raw(),
    {
        self.raw
    }
}

/// Index of a demand node within one item's flow problem.
#[derive(Debug, Clone, Copy, PartialEq, Eq, Structural, Hash, PartialOrd, Ord)]
pub struct DemandNodeId {
    raw: u32,
}

impl DemandNodeId {
    pub closed spec fn raw(self) -> u32 {
        self.raw
    }

    /// The id of the demand node at `index`.
    pub fn from_index(index: usize) -> (r: DemandNodeId)
        requires
            index <= u32::MAX,
        ensures
            r.raw() == index,
    {
        DemandNodeId { raw: index as u32 }
    }

    /// The id's number.
    pub fn as_u32(self) -> (r: u32)
        ensures
            r == self.raw(),
    {
        self.raw
    }
}

/// Where an item comes from.
#[derive(Debug, Clone, Copy, PartialEq, Eq, Structural)]
pub enum SupplySite {
    ExternalSupply { item: ItemId },
    RecipeOutput { recipe_index: RecipeId, item: ItemId },
}

/// Where an item goes to.
#[derive(Debug, Clone, Copy, PartialEq, Eq, Structural)]
pub enum DemandSite {
    RecipeInput { recipe_index: RecipeId, item: ItemId },
    ExternalConsumption { item: ItemId },
    OutpostSale { outpost_index: OutpostId, item: ItemId },
    ThermalBankFuel { power_recipe_index: PowerRecipeId, item: ItemId },
    /// Leftovers stockpiled into the warehouse.
    WarehouseStockpile,
}

/// Identifier of a node of the logistics graph: its index in the node list.
#[derive(Debug, Clone, Copy, PartialEq, Eq, Structural, Hash, PartialOrd, Ord)]
pub struct LogisticsNodeId {
    raw: u32,
}

impl LogisticsNodeId {
    pub closed spec fn raw(self) -> u32 {
        self.raw
    }

    /// The id of the node at `index`.
    pub fn from_index(index: usize) -> (r: LogisticsNodeId)
        requires
            index <= u32::MAX,
        ensures
            r.raw() == index,
    {
        LogisticsNodeId { raw: index as u32 }
    }

    /// The id's number.
    pub fn as_u32(self) -> (r: u32)
        ensures
            r == self.raw(),
    {
        self.raw
    }

    /// Two node ids are the same id exactly when their numbers are equal.
    pub proof fn lemma_raw_injective(self, other: LogisticsNodeId)
        ensures
            (self.raw() == other.raw()) == (self == other),
    {
    }
}

/// The place a node of the logistics graph stands for.
#[derive(Debug, Clone, Copy, PartialEq, Eq, Structural)]
pub enum LogisticsNodeSite {
    ExternalSupply { item: ItemId },
    ExternalConsumption { item: ItemId },
    /// All machines running one recipe, for every item they take or give.
    RecipeGroup { recipe_index: RecipeId },
    OutpostSale { outpost_index: OutpostId, item: ItemId },
    ThermalBankGroup { power_recipe_index: PowerRecipeId, item: ItemId },
    /// Per-item leftovers stockpiled into the warehouse: what remains after
    /// every real demand is met, virtual sales of the second stage included.
    WarehouseStockpile { item: ItemId },
}

/// What identifies a node: two sites with the same key share one node.
#[derive(Debug, Clone, Copy, PartialEq, Eq, Structural)]
pub enum LogisticsNodeKey {
    ExternalSupply { item: ItemId },
    ExternalConsumption { item: ItemId },
    RecipeGroup { recipe_index: RecipeId },
    OutpostSale { outpost_index: OutpostId, item: ItemId },
    ThermalBankGroup { power_recipe_index: PowerRecipeId, item: ItemId },
    WarehouseStockpile { item: ItemId },
}

/// One node of the logistics graph.
#[derive(Debug, Clone, Copy, PartialEq, Eq, Structural)]
pub struct LogisticsNode {
    pub id: LogisticsNodeId,
    pub site: LogisticsNodeSite,
}

/// The node key of a supply site: a recipe's outputs all leave from the
/// recipe's node.
pub open spec fn spec_supply_site_key(site: SupplySite) -> LogisticsNodeKey {
    match site {
        SupplySite::ExternalSupply { item } => LogisticsNodeKey::ExternalSupply { item },
        SupplySite::RecipeOutput { recipe_index, .. } => LogisticsNodeKey::RecipeGroup { recipe_index },
    }
}

/// The node key of a supply site.
pub fn supply_site_key(site: &SupplySite) -> (k: LogisticsNodeKey)
    ensures
        k == spec_supply_site_key(*site),
{
    match *site {
        SupplySite::ExternalSupply { item } => LogisticsNodeKey::ExternalSupply { item },
        SupplySite::RecipeOutput { recipe_index, item: _ } => LogisticsNodeKey::RecipeGroup {
            recipe_index,
        },
    }
}

/// The node key of a demand site of `item`'s flow problem: a recipe's inputs
/// all arrive at the recipe's node, and the warehouse has one node per item.
pub open spec fn spec_demand_site_key(site: DemandSite, item: ItemId) -> LogisticsNodeKey {
    match site {
        DemandSite::RecipeInput { recipe_index, .. } => LogisticsNodeKey::RecipeGroup { recipe_index },
        DemandSite::ExternalConsumption { item } => LogisticsNodeKey::ExternalConsumption { item },
        DemandSite::OutpostSale { outpost_index, item } => LogisticsNodeKey::OutpostSale {
            outpost_index,
            item,
        },
        DemandSite::ThermalBankFuel { power_recipe_index, item } =>
            LogisticsNodeKey::ThermalBankGroup { power_recipe_index, item },
        DemandSite::WarehouseStockpile => LogisticsNodeKey::WarehouseStockpile { item },
    }
}

/// The node key of a demand site of `item`'s flow problem.
pub fn demand_site_key(site: &DemandSite, item: ItemId) -> (k: LogisticsNodeKey)
    ensures
        k == spec_demand_site_key(*site, item),
{
    match *site {
        DemandSite::RecipeInput { recipe_index, item: _ } => LogisticsNodeKey::RecipeGroup {
            recipe_index,
        },
        DemandSite::ExternalConsumption { item } => LogisticsNodeKey::ExternalConsumption { item },
        DemandSite::OutpostSale { outpost_index, item } => LogisticsNodeKey::OutpostSale {
            outpost_index,
            item,
        },
        DemandSite::ThermalBankFuel { power_recipe_index, item } =>
            LogisticsNodeKey::ThermalBankGroup { power_recipe_index, item },
        DemandSite::WarehouseStockpile => LogisticsNodeKey::WarehouseStockpile { item },
    }
}

/// The place a node key stands for.
pub open spec fn spec_key_to_site(key: LogisticsNodeKey) -> LogisticsNodeSite {
    match key {
        LogisticsNodeKey::ExternalSupply { item } => LogisticsNodeSite::ExternalSupply { item },
        LogisticsNodeKey::ExternalConsumption { item } => LogisticsNodeSite::ExternalConsumption { item },
        LogisticsNodeKey::RecipeGroup { recipe_index } => LogisticsNodeSite::RecipeGroup { recipe_index },
        LogisticsNodeKey::OutpostSale { outpost_index, item } => LogisticsNodeSite::OutpostSale {
            outpost_index,
            item,
        },
        LogisticsNodeKey::ThermalBankGroup { power_recipe_index, item } =>
            LogisticsNodeSite::ThermalBankGroup { power_recipe_index, item },
        LogisticsNodeKey::WarehouseStockpile { item } => LogisticsNodeSite::WarehouseStockpile { item },
    }
}

/// The place a node key stands for.
pub fn key_to_site(key: LogisticsNodeKey) -> (s: LogisticsNodeSite)
    ensures
        s == spec_key_to_site(key),
{
    match key {
        LogisticsNodeKey::ExternalSupply { item } => LogisticsNodeSite::ExternalSupply { item },
        LogisticsNodeKey::ExternalConsumption { item } => LogisticsNodeSite::ExternalConsumption {
            item,
        },
        LogisticsNodeKey::RecipeGroup { recipe_index } => LogisticsNodeSite::RecipeGroup {
            recipe_index,
        },
        LogisticsNodeKey::OutpostSale { outpost_index, item } => LogisticsNodeSite::OutpostSale {
            outpost_index,
            item,
        },
        LogisticsNodeKey::ThermalBankGroup { power_recipe_index, item } =>
            LogisticsNodeSite::ThermalBankGroup { power_recipe_index, item },
        LogisticsNodeKey::WarehouseStockpile { item } => LogisticsNodeSite::WarehouseStockpile {
            item,
        },
    }
}

/// No key occurs twice.
pub open spec fn node_keys_distinct(keys: Seq<LogisticsNodeKey>) -> bool {
    forall|a: int, b: int| 0 <= a < b < keys.len() ==> #[trigger] keys[a] != #[trigger] keys[b]
}

/// The nodes of a logistics graph, one per key, numbered in the order their
/// keys were first seen.
#[derive(Debug)]
pub struct LogisticsNodes {
    table: NodeTable,
}

#[derive(Debug)]
struct NodeTable {
    keys: Vec<LogisticsNodeKey>,
    nodes: Vec<LogisticsNode>,
}

impl LogisticsNodes {
    /// The keys of the nodes, in id order.
    pub closed spec fn spec_keys(&self) -> Seq<LogisticsNodeKey> {
        self.table.keys@
    }

    /// The nodes, in id order.
    pub closed spec fn spec_nodes(&self) -> Seq<LogisticsNode> {
        self.table.nodes@
    }

    #[verifier::type_invariant]
    closed spec fn inv(&self) -> bool {
        &&& self.table.keys@.len() == self.table.nodes@.len()
        &&& self.table.keys@.len() <= u32::MAX
        &&& node_keys_distinct(self.table.keys@)
        &&& forall|i: int|
            0 <= i < self.table.nodes@.len() ==> (#[trigger] self.table.nodes@[i]).id.raw() == i
                && self.table.nodes@[i].site == spec_key_to_site(self.table.keys@[i])
    }

    /// Node `i` has id `i` and stands for the place of key `i`; keys are
    /// distinct.
    pub open spec fn wf(&self) -> bool {
        &&& self.spec_keys().len() == self.spec_nodes().len()
        &&& self.spec_keys().len() <= u32::MAX
        &&& node_keys_distinct(self.spec_keys())
        &&& forall|i: int|
            0 <= i < self.spec_nodes().len() ==> (#[trigger] self.spec_nodes()[i]).id.raw() == i
                && self.spec_nodes()[i].site == spec_key_to_site(self.spec_keys()[i])
    }

    /// States that the nodes are well formed; no work at run time.
    pub fn well_formed(&self)
        ensures
            self.wf(),
    {
        proof {
            use_type_invariant(self);
        }
    }

    /// No nodes yet.
    pub fn new() -> (g: LogisticsNodes)
        ensures
            g.spec_keys().len() == 0,
            g.spec_nodes().len() == 0,
    {
        LogisticsNodes { table: NodeTable { keys: Vec::new(), nodes: Vec::new() } }
    }

    /// Number of nodes.
    pub fn len(&self) -> (n: usize)
        ensures
            n == self.spec_nodes().len(),
    {
        self.table.nodes.len()
    }

    /// The node for `key`: the existing one when the key was seen before,
    /// else a new node with the next id.
    pub fn allocate(&mut self, key: LogisticsNodeKey) -> (id: LogisticsNodeId)
        requires
            old(self).spec_keys().len() < u32::MAX,
        ensures
            id.raw() < final(self).spec_keys().len(),
            final(self).spec_keys()[id.raw() as int] == key,
            old(self).spec_keys().contains(key) ==> {
                &&& final(self).spec_keys() == old(self).spec_keys()
                &&& final(self).spec_nodes() == old(self).spec_nodes()
            },
            !old(self).spec_keys().contains(key) ==> {
                &&& id.raw() == old(self).spec_keys().len()
                &&& final(self).spec_keys() == old(self).spec_keys().push(key)
                &&& final(self).spec_nodes() == old(self).spec_nodes().push(
                    LogisticsNode { id, site: spec_key_to_site(key) },
                )
            },
    {
        proof {
            use_type_invariant(&*self);
        }
        let mut i: usize = 0;
        while i < self.table.keys.len()
            invariant
                i <= self.table.keys@.len() <= u32::MAX,
                forall|j: int| 0 <= j < i ==> self.table.keys@[j] != key,
            decreases self.table.keys@.len() - i,
        {
            if self.table.keys[i] == key {
                return LogisticsNodeId::from_index(i);
            }
            i = i + 1;
        }
        let id = LogisticsNodeId::from_index(self.table.nodes.len());
        let site = key_to_site(key);
        let mut t = NodeTable { keys: Vec::new(), nodes: Vec::new() };
        std::mem::swap(&mut t, &mut self.table);
        let ghost old_keys = t.keys@;
        let ghost old_nodes = t.nodes@;
        t.keys.push(key);
        t.nodes.push(LogisticsNode { id, site });
        proof {
            assert forall|a: int, b: int| 0 <= a < b < t.keys@.len() implies #[trigger] t.keys@[a]
                != #[trigger] t.keys@[b] by {
                if b < old_keys.len() {
                    assert(t.keys@[a] == old_keys[a] && t.keys@[b] == old_keys[b]);
                } else {
                    assert(t.keys@[a] == old_keys[a]);
                }
            }
            assert forall|k: int| 0 <= k < t.nodes@.len() implies (#[trigger] t.nodes@[k]).id.raw() == k
                && t.nodes@[k].site == spec_key_to_site(t.keys@[k]) by {
                if k < old_nodes.len() {
                    assert(t.nodes@[k] == old_nodes[k] && t.keys@[k] == old_keys[k]);
                }
            }
        }
        self.table = t;
        id
    }

    /// The nodes, in id order.
    pub fn nodes(&self) -> (r: &[LogisticsNode])
        ensures
            r@ == self.spec_nodes(),
    {
        self.table.nodes.as_slice()
    }

    /// Gives up the nodes, in id order.
    pub fn into_nodes(self) -> (r: Vec<LogisticsNode>)
        ensures
            r@ == self.spec_nodes(),
    {
        self.table.nodes
    }
}

/// With distinct keys, a key stands at one index only: a node found for a
/// key is the node that any later lookup of the same key finds.
pub proof fn law_node_key_unique(keys: Seq<LogisticsNodeKey>, i: int, j: int)
    requires
        node_keys_distinct(keys),
        0 <= i < keys.len(),
        0 <= j < keys.len(),
        keys[i] == keys[j],
    ensures
        i == j,
{
    if i < j {
        assert(keys[i] != keys[j]);
    } else if j < i {
        assert(keys[j] != keys[i]);
    }
}

/// Stockpiles of different items do not share a warehouse node: in a
/// graph, the nodes of two different items' warehouse keys are different
/// nodes, with different ids.
pub proof fn law_warehouse_node_per_item(g: LogisticsNodes, a: ItemId, b: ItemId, i: int, j: int)
    requires
        g.wf(),
        a != b,
        0 <= i < g.spec_keys().len(),
        0 <= j < g.spec_keys().len(),
        g.spec_keys()[i] == spec_demand_site_key(DemandSite::WarehouseStockpile, a),
        g.spec_keys()[j] == spec_demand_site_key(DemandSite::WarehouseStockpile, b),
    ensures
        i != j,
        g.spec_nodes()[i].id != g.spec_nodes()[j].id,
{
    assert(g.spec_nodes()[i].id.raw() == i);
    assert(g.spec_nodes()[j].id.raw() == j);
}

/// Node ids of one item's supply or demand nodes, by their dense index.
#[derive(Debug)]
pub struct DenseNodeMap {
    values: Vec<LogisticsNodeId>,
}

impl View for DenseNodeMap {
    type V = Seq<LogisticsNodeId>;

    closed spec fn view(&self) -> Seq<LogisticsNodeId> {
        self.values@
    }
}

impl DenseNodeMap {
    /// A map of `len` slots, all set to node 0.
    pub fn new(len: usize) -> (m: DenseNodeMap)
        ensures
            m@.len() == len,
            forall|i: int| 0 <= i < len ==> (#[trigger] m@[i]).raw() == 0,
    {
        let mut values: Vec<LogisticsNodeId> = Vec::new();
        let mut i: usize = 0;
        while i < len
            invariant
                i <= len,
                values@.len() == i,
                forall|j: int| 0 <= j < i ==> (#[trigger] values@[j]).raw() == 0,
            decreases len - i,
        {
            values.push(LogisticsNodeId::from_index(0));
            i = i + 1;
        }
        DenseNodeMap { values }
    }

    /// Sets the node of slot `dense_index`.
    pub fn insert(&mut self, dense_index: u32, node_id: LogisticsNodeId)
        requires
            dense_index < old(self)@.len(),
        ensures
            final(self)@ == old(self)@.update(dense_index as int, node_id),
    {
        self.values.set(dense_index as usize, node_id);
    }

    /// The node of slot `dense_index`.
    pub fn get(&self, dense_index: u32) -> (r: LogisticsNodeId)
        requires
            dense_index < self@.len(),
        ensures
            r == self@[dense_index as int],
    {
        self.values[dense_index as usize]
    }
}

/// The keys after allocating `new_keys` in order: each key not seen yet is
/// appended, a key seen before leaves the keys as they are.
pub open spec fn keys_after(keys: Seq<LogisticsNodeKey>, new_keys: Seq<LogisticsNodeKey>) -> Seq<LogisticsNodeKey>
    decreases new_keys.len(),
{
    if new_keys.len() == 0 {
        keys
    } else {
        let before = keys_after(keys, new_keys.drop_last());
        if before.contains(new_keys.last()) {
            before
        } else {
            before.push(new_keys.last())
        }
    }
}

/// The node keys of supply sites, in order.
pub open spec fn supply_keys(supplies: Seq<SupplySite>) -> Seq<LogisticsNodeKey> {
    supplies.map_values(|s: SupplySite| spec_supply_site_key(s))
}

/// The node keys of `item`'s demand sites, in order.
pub open spec fn demand_keys(demands: Seq<DemandSite>, item: ItemId) -> Seq<LogisticsNodeKey> {
    demands.map_values(|d: DemandSite| spec_demand_site_key(d, item))
}

/// The nodes of one item's flow problem: slot `k` of the supply (demand)
/// map is the node of supply (demand) site `k`, and every site's key has its
/// node.
pub fn allocate_item_nodes(
    graph: &mut LogisticsNodes,
    item: ItemId,
    supplies: &Vec<SupplySite>,
    demands: &Vec<DemandSite>,
) -> (r: (DenseNodeMap, DenseNodeMap))
    requires
        old(graph).spec_keys().len() + supplies@.len() + demands@.len() < u32::MAX,
        supplies@.len() <= u32::MAX,
        demands@.len() <= u32::MAX,
    ensures
        final(graph).spec_keys() == keys_after(
            keys_after(old(graph).spec_keys(), supply_keys(supplies@)),
            demand_keys(demands@, item),
        ),
        final(graph).spec_keys().len() <= old(graph).spec_keys().len() + supplies@.len() + demands@.len(),
        old(graph).spec_keys().is_prefix_of(final(graph).spec_keys()),
        r.0@.len() == supplies@.len(),
        r.1@.len() == demands@.len(),
        forall|k: int|
            0 <= k < supplies@.len() ==> (#[trigger] r.0@[k]).raw() < final(graph).spec_keys().len()
                && final(graph).spec_keys()[r.0@[k].raw() as int] == spec_supply_site_key(supplies@[k]),
        forall|k: int|
            0 <= k < demands@.len() ==> (#[trigger] r.1@[k]).raw() < final(graph).spec_keys().len()
                && final(graph).spec_keys()[r.1@[k].raw() as int] == spec_demand_site_key(demands@[k], item),
{
    let mut supply_nodes = DenseNodeMap::new(supplies.len());
    let mut k: usize = 0;
    while k < supplies.len()
        invariant
            k <= supplies@.len() <= u32::MAX,
            graph.spec_keys() == keys_after(old(graph).spec_keys(), supply_keys(supplies@).take(k as int)),
            graph.spec_keys().len() <= old(graph).spec_keys().len() + k,
            old(graph).spec_keys().len() + supplies@.len() + demands@.len() < u32::MAX,
            old(graph).spec_keys().is_prefix_of(graph.spec_keys()),
            supply_nodes@.len() == supplies@.len(),
            forall|j: int|
                0 <= j < k ==> (#[trigger] supply_nodes@[j]).raw() < graph.spec_keys().len()
                    && graph.spec_keys()[supply_nodes@[j].raw() as int] == spec_supply_site_key(supplies@[j]),
        decreases supplies@.len() - k,
    {
        let key = supply_site_key(&supplies[k]);
        let ghost before = graph.spec_keys();
        let id = graph.allocate(key);
        proof {
            let t = supply_keys(supplies@).take(k + 1);
            assert(t.drop_last() =~= supply_keys(supplies@).take(k as int));
            assert(t.last() == key);
            assert forall|j: int| 0 <= j < k implies (#[trigger] supply_nodes@[j]).raw() < graph.spec_keys().len()
                && graph.spec_keys()[supply_nodes@[j].raw() as int] == spec_supply_site_key(supplies@[j]) by {
                assert(before.is_prefix_of(graph.spec_keys()));
            }
            assert(old(graph).spec_keys().is_prefix_of(graph.spec_keys())) by {
                assert(before.is_prefix_of(graph.spec_keys()));
            }
        }
        supply_nodes.insert(k as u32, id);
        k = k + 1;
    }
    proof {
        assert(supply_keys(supplies@).take(supplies@.len() as int) =~= supply_keys(supplies@));
    }
    let mut demand_nodes = DenseNodeMap::new(demands.len());
    let mut k: usize = 0;
    while k < demands.len()
        invariant
            k <= demands@.len() <= u32::MAX,
            graph.spec_keys() == keys_after(
                keys_after(old(graph).spec_keys(), supply_keys(supplies@)),
                demand_keys(demands@, item).take(k as int),
            ),
            graph.spec_keys().len() <= old(graph).spec_keys().len() + supplies@.len() + k,
            old(graph).spec_keys().len() + supplies@.len() + demands@.len() < u32::MAX,
            old(graph).spec_keys().is_prefix_of(graph.spec_keys()),
            supply_nodes@.len() == supplies@.len(),
            demand_nodes@.len() == demands@.len(),
            forall|j: int|
                0 <= j < supplies@.len() ==> (#[trigger] supply_nodes@[j]).raw() < graph.spec_keys().len()
                    && graph.spec_keys()[supply_nodes@[j].raw() as int] == spec_supply_site_key(supplies@[j]),
            forall|j: int|
                0 <= j < k ==> (#[trigger] demand_nodes@[j]).raw() < graph.spec_keys().len()
                    && graph.spec_keys()[demand_nodes@[j].raw() as int] == spec_demand_site_key(demands@[j], item),
        decreases demands@.len() - k,
    {
        let key = demand_site_key(&demands[k], item);
        let ghost before = graph.spec_keys();
        let id = graph.allocate(key);
        proof {
            let t = demand_keys(demands@, item).take(k + 1);
            assert(t.drop_last() =~= demand_keys(demands@, item).take(k as int));
            assert(t.last() == key);
            assert forall|j: int| 0 <= j < k implies (#[trigger] demand_nodes@[j]).raw() < graph.spec_keys().len()
                && graph.spec_keys()[demand_nodes@[j].raw() as int] == spec_demand_site_key(demands@[j], item) by {
                assert(before.is_prefix_of(graph.spec_keys()));
            }
            assert forall|j: int| 0 <= j < supplies@.len() implies (#[trigger] supply_nodes@[j]).raw() < graph.spec_keys().len()
                && graph.spec_keys()[supply_nodes@[j].raw() as int] == spec_supply_site_key(supplies@[j]) by {
                assert(before.is_prefix_of(graph.spec_keys()));
            }
            assert(old(graph).spec_keys().is_prefix_of(graph.spec_keys())) by {
                assert(before.is_prefix_of(graph.spec_keys()));
            }
        }
        demand_nodes.insert(k as u32, id);
        k = k + 1;
    }
    proof {
        assert(demand_keys(demands@, item).take(demands@.len() as int) =~= demand_keys(demands@, item));
    }
    (supply_nodes, demand_nodes)
}

} // verus!
