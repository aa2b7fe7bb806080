//! Scenario inputs: region, power settings, external supply and consumption,
//! and outposts with their price tables.

use vstd::prelude::*;
use vector_map::VecMap;

use crate::catalog::ItemId;
use crate::strings::{push_str, string_of};
use crate::text::{DisplayName, Key};

verus! {

/// Game region the scenario is played in.
#[derive(Debug, Clone, Copy, PartialEq, Eq, Structural, Hash)]
pub enum Region {
    FourthValley,
    Wuling,
}

impl Region {
    pub open spec fn spec_key(self) -> Seq<char> {
        match self {
            Region::FourthValley => "fourth_valley"@,
            Region::Wuling => "wuling"@,
        }
    }

    /// The region's key as written in `aic.toml`.
    pub fn as_key(self) -> (s: &'static str)
        ensures
            s@ == self.spec_key(),
    {
        proof {
            reveal_strlit("fourth_valley");
            reveal_strlit("wuling");
        }
        match self {
            Region::FourthValley => "fourth_valley",
            Region::Wuling => "wuling",
        }
    }
}

/// Power modelling of a scenario.
#[derive(Debug, Clone, Copy, PartialEq, Eq, Structural)]
pub enum PowerConfig {
    /// Power is not modelled.
    Disabled,
    /// Power is modelled with these external generation and consumption.
    Enabled { external_production_w: u32, external_consumption_w: u32 },
}

impl Default for PowerConfig {
    /// 200 W of external production and no external consumption.
    fn default() -> (p: Self)
        ensures
            p == (PowerConfig::Enabled { external_production_w: 200, external_consumption_w: 0 }),
    {
        PowerConfig::Enabled { external_production_w: 200, external_consumption_w: 0 }
    }
}

// ---------------------------------------------------------------------------
// Vector-backed maps (outside crate `vector_map`)
// ---------------------------------------------------------------------------

#[verifier::external_type_specification]
#[verifier::external_body]
#[verifier::reject_recursive_types(K)]
#[verifier::reject_recursive_types(V)]
pub struct ExVecMap<K, V>(VecMap<K, V>);

/// The entries of a `VecMap<u32, u32>`, in its internal order.
pub uninterp spec fn vec_map_entries(m: VecMap<u32, u32>) -> Seq<(u32, u32)>;

/// Index of the first entry with key `k`, if any.
pub open spec fn first_key_index(s: Seq<(u32, u32)>, k: u32) -> Option<int>
    decreases s.len(),
{
    if s.len() == 0 {
        None
    } else if s[0].0 == k {
        Some(0)
    } else {
        match first_key_index(s.drop_first(), k) {
            Some(i) => Some(i + 1),
            None => None,
        }
    }
}

/// The entries after inserting `(k, v)`: the value of the entry with that
/// key is replaced in place, or the pair is appended.
pub open spec fn entries_insert(s: Seq<(u32, u32)>, k: u32, v: u32) -> Seq<(u32, u32)> {
    match first_key_index(s, k) {
        Some(i) => s.update(i, (k, v)),
        None => s.push((k, v)),
    }
}

/// The value stored under `k`, if any.
pub open spec fn entries_get(s: Seq<(u32, u32)>, k: u32) -> Option<u32> {
    match first_key_index(s, k) {
        Some(i) => Some(s[i].1),
        None => None,
    }
}

/// No key occurs twice.
pub open spec fn keys_distinct(s: Seq<(u32, u32)>) -> bool {
    forall|i: int, j: int| 0 <= i < j < s.len() ==> #[trigger] s[i].0 != #[trigger] s[j].0
}

/// Trusted: `VecMap::new` makes an empty map.
#[verifier::external_body]
fn vm_new() -> (m: VecMap<u32, u32>)
    ensures
        vec_map_entries(m) == Seq::<(u32, u32)>::empty(),
{
    VecMap::new()
}

/// Trusted: `VecMap::with_capacity` makes an empty map.
#[verifier::external_body]
fn vm_with_capacity(capacity: usize) -> (m: VecMap<u32, u32>)
    ensures
        vec_map_entries(m) == Seq::<(u32, u32)>::empty(),
{
    VecMap::with_capacity(capacity)
}

/// Trusted: `VecMap::len` is the number of entries (the length of its key
/// vector).
#[verifier::external_body]
fn vm_len(m: &VecMap<u32, u32>) -> (n: usize)
    ensures
        n == vec_map_entries(*m).len(),
{
    m.len()
}

/// Trusted: `VecMap::insert` finds the first entry whose key equals `k`
/// (`position`); it swaps the new value in and returns the old one, or, when
/// there is none, pushes the pair at the end and returns `None`.
#[verifier::external_body]
fn vm_insert(m: &mut VecMap<u32, u32>, k: u32, v: u32) -> (r: Option<u32>)
    ensures
        vec_map_entries(*final(m)) == entries_insert(vec_map_entries(*old(m)), k, v),
        r == entries_get(vec_map_entries(*old(m)), k),
{
    m.insert(k, v)
}

/// Trusted: `VecMap::get` returns the value of the first entry whose key
/// equals `k`.
#[verifier::external_body]
fn vm_get(m: &VecMap<u32, u32>, k: u32) -> (r: Option<&u32>)
    ensures
        match r {
            Some(v) => entries_get(vec_map_entries(*m), k) == Some(*v),
            None => entries_get(vec_map_entries(*m), k) is None,
        },
{
    m.get(&k)
}

/// Trusted: `VecMap::iter` walks the entries in their internal order; each
/// pair is copied out.
#[verifier::external_body]
fn vm_entries(m: &VecMap<u32, u32>) -> (v: Vec<(u32, u32)>)
    ensures
        v@ == vec_map_entries(*m),
{
    m.iter().map(|(k, v)| (*k, *v)).collect()
}

/// Trusted: `VecMap`'s derived `Clone` clones both vectors, keeping the
/// entries.
#[verifier::external_body]
fn vm_clone(m: &VecMap<u32, u32>) -> (c: VecMap<u32, u32>)
    ensures
        vec_map_entries(c) == vec_map_entries(*m),
{
    m.clone()
}

/// Inserting keeps keys distinct; afterwards the key maps to the new value.
pub proof fn law_insert_then_get(s: Seq<(u32, u32)>, k: u32, v: u32)
    requires
        keys_distinct(s),
    ensures
        keys_distinct(entries_insert(s, k, v)),
        entries_get(entries_insert(s, k, v), k) == Some(v),
        entries_insert(s, k, v).len() == s.len() + if entries_get(s, k) is Some {
            0int
        } else {
            1int
        },
{
    lemma_first_key_index(s, k);
    let t = entries_insert(s, k, v);
    match first_key_index(s, k) {
        Some(i) => {
            assert forall|a: int, b: int| 0 <= a < b < t.len() implies #[trigger] t[a].0
                != #[trigger] t[b].0 by {
                assert(t[a].0 == s[a].0 && t[b].0 == s[b].0);
            }
            lemma_first_key_index(t, k);
            assert(t[i].0 == k);
        },
        None => {
            assert forall|a: int, b: int| 0 <= a < b < t.len() implies #[trigger] t[a].0
                != #[trigger] t[b].0 by {
                if b == s.len() {
                    assert(t[a] == s[a]);
                } else {
                    assert(t[a] == s[a] && t[b] == s[b]);
                }
            }
            lemma_first_key_index(t, k);
            assert(t[s.len() as int].0 == k);
        },
    }
}

/// Inserting under one key leaves the value under every other key as it was.
pub proof fn law_insert_keeps_other_keys(s: Seq<(u32, u32)>, k: u32, v: u32, other: u32)
    requires
        other != k,
    ensures
        entries_get(entries_insert(s, k, v), other) == entries_get(s, other),
{
    lemma_first_key_index(s, k);
    lemma_first_key_index(s, other);
    let t = entries_insert(s, k, v);
    lemma_first_key_index(t, other);
    match first_key_index(s, other) {
        Some(j) => {
            assert(t[j] == s[j]);
            if first_key_index(t, other) != Some(j) {
                let m = first_key_index(t, other)->Some_0;
                assert(t[m].0 == other);
                if m < s.len() {
                    assert(t[m].0 == s[m].0);
                }
            }
        },
        None => {
            if first_key_index(t, other) is Some {
                let m = first_key_index(t, other)->Some_0;
                if m < s.len() {
                    assert(t[m].0 == s[m].0);
                }
            }
        },
    }
}

/// `first_key_index` finds the first entry with the key.
pub proof fn lemma_first_key_index(s: Seq<(u32, u32)>, k: u32)
    ensures
        match first_key_index(s, k) {
            Some(i) => 0 <= i < s.len() && s[i].0 == k && forall|j: int|
                0 <= j < i ==> #[trigger] s[j].0 != k,
            None => forall|j: int| 0 <= j < s.len() ==> #[trigger] s[j].0 != k,
        },
    decreases s.len(),
{
    if s.len() > 0 {
        lemma_first_key_index(s.drop_first(), k);
        match first_key_index(s.drop_first(), k) {
            Some(i) => {
                assert forall|j: int| 0 <= j < i + 1 implies #[trigger] s[j].0 != k || s[0].0 == k by {
                    if j > 0 {
                        assert(s[j] == s.drop_first()[j - 1]);
                    }
                }
            },
            None => {
                assert forall|j: int| 0 <= j < s.len() implies #[trigger] s[j].0 != k || s[0].0 == k by {
                    if j > 0 {
                        assert(s[j] == s.drop_first()[j - 1]);
                    }
                }
            },
        }
    }
}

/// Sparse map from items to `u32` values (such as an outpost's price table),
/// with at most one entry per item, kept in insertion order.
#[derive(Debug)]
pub struct ItemU32Map(VecMap<u32, u32>);

impl View for ItemU32Map {
    type V = Seq<(u32, u32)>;

    /// The entries as `(item id number, value)` pairs.
    closed spec fn view(&self) -> Seq<(u32, u32)> {
        vec_map_entries(self.0)
    }
}

impl ItemU32Map {
    /// An empty map.
    pub fn new() -> (m: Self)
        ensures
            m@ == Seq::<(u32, u32)>::empty(),
    {
        ItemU32Map(vm_new())
    }

    /// An empty map with room for `capacity` entries.
    pub fn with_capacity(capacity: usize) -> (m: Self)
        ensures
            m@ == Seq::<(u32, u32)>::empty(),
    {
        ItemU32Map(vm_with_capacity(capacity))
    }

    /// Number of entries.
    pub fn len(&self) -> (n: usize)
        ensures
            n == self@.len(),
    {
        vm_len(&self.0)
    }

    /// Whether the map has no entry.
    pub fn is_empty(&self) -> (b: bool)
        ensures
            b == (self@.len() == 0),
    {
        vm_len(&self.0) == 0
    }

    /// Sets the value of `item`, returning its previous value.
    pub fn insert(&mut self, item: ItemId, value: u32) -> (r: Option<u32>)
        ensures
            final(self)@ == entries_insert(old(self)@, item.raw(), value),
            r == entries_get(old(self)@, item.raw()),
    {
        vm_insert(&mut self.0, item.as_u32(), value)
    }

    /// The value of `item`, if present.
    pub fn get(&self, item: ItemId) -> (r: Option<&u32>)
        ensures
            match r {
                Some(v) => entries_get(self@, item.raw()) == Some(*v),
                None => entries_get(self@, item.raw()) is None,
            },
    {
        vm_get(&self.0, item.as_u32())
    }

    /// All entries as `(item, value)` pairs, in insertion order.
    pub fn iter(&self) -> (v: Vec<(ItemId, u32)>)
        ensures
            v@.len() == self@.len(),
            forall|i: int|
                0 <= i < v@.len() ==> (#[trigger] v@[i]).0.raw() == self@[i].0 && v@[i].1
                    == self@[i].1,
    {
        let raw = vm_entries(&self.0);
        let mut out: Vec<(ItemId, u32)> = Vec::new();
        let mut i: usize = 0;
        while i < raw.len()
            invariant
                i <= raw@.len(),
                raw@ == self@,
                out@.len() == i,
                forall|j: int|
                    0 <= j < i ==> (#[trigger] out@[j]).0.raw() == raw@[j].0 && out@[j].1
                        == raw@[j].1,
            decreases raw@.len() - i,
        {
            let (k, v) = raw[i];
            out.push((ItemId::from_index(k as usize), v));
            i = i + 1;
        }
        out
    }

    /// A map holding the given pairs inserted in order: a later value for the
    /// same item replaces an earlier one.
    pub fn from_pairs(pairs: Vec<(ItemId, u32)>) -> (m: Self)
        ensures
            m@ == pairs_entries(pairs@),
    {
        let mut m = ItemU32Map::with_capacity(pairs.len());
        let mut i: usize = 0;
        while i < pairs.len()
            invariant
                i <= pairs@.len(),
                m@ == pairs_entries(pairs@.take(i as int)),
            decreases pairs@.len() - i,
        {
            let (item, value) = pairs[i];
            m.insert(item, value);
            assert(pairs@.take(i + 1).drop_last() =~= pairs@.take(i as int));
            i = i + 1;
        }
        assert(pairs@.take(pairs@.len() as int) =~= pairs@);
        m
    }
}

/// The entries that inserting `pairs` in order into an empty map gives.
pub open spec fn pairs_entries(pairs: Seq<(ItemId, u32)>) -> Seq<(u32, u32)>
    decreases pairs.len(),
{
    if pairs.len() == 0 {
        Seq::empty()
    } else {
        entries_insert(pairs_entries(pairs.drop_last()), pairs.last().0.raw(), pairs.last().1)
    }
}

/// Building a map from pairs keeps one entry per item, and an item's value
/// is the one its last pair gives: later pairs for the same item replace
/// earlier ones.
pub proof fn law_from_pairs_last_value_wins(pairs: Seq<(ItemId, u32)>, i: int)
    requires
        0 <= i < pairs.len(),
        forall|j: int| i < j < pairs.len() ==> (#[trigger] pairs[j]).0 != pairs[i].0,
    ensures
        keys_distinct(pairs_entries(pairs)),
        entries_get(pairs_entries(pairs), pairs[i].0.raw()) == Some(pairs[i].1),
    decreases pairs.len(),
{
    lemma_pairs_entries_distinct(pairs);
    let last = pairs.last();
    let prev = pairs.drop_last();
    lemma_pairs_entries_distinct(prev);
    if i == pairs.len() - 1 {
        law_insert_then_get(pairs_entries(prev), last.0.raw(), last.1);
    } else {
        assert(prev[i] == pairs[i]);
        assert forall|j: int| i < j < prev.len() implies (#[trigger] prev[j]).0 != prev[i].0 by {
            assert(prev[j] == pairs[j]);
        }
        law_from_pairs_last_value_wins(prev, i);
        assert(last.0 != pairs[i].0);
        last.0.lemma_raw_injective(pairs[i].0);
        law_insert_keeps_other_keys(pairs_entries(prev), last.0.raw(), last.1, pairs[i].0.raw());
    }
}

proof fn lemma_pairs_entries_distinct(pairs: Seq<(ItemId, u32)>)
    ensures
        keys_distinct(pairs_entries(pairs)),
    decreases pairs.len(),
{
    if pairs.len() > 0 {
        lemma_pairs_entries_distinct(pairs.drop_last());
        law_insert_then_get(pairs_entries(pairs.drop_last()), pairs.last().0.raw(), pairs.last().1);
    }
}

impl Clone for ItemU32Map {
    fn clone(&self) -> (c: Self)
        ensures
            c@ == self@,
    {
        ItemU32Map(vm_clone(&self.0))
    }
}

impl Default for ItemU32Map {
    fn default() -> (m: Self)
        ensures
            m@ == Seq::<(u32, u32)>::empty(),
    {
        ItemU32Map::new()
    }
}

/// All values are positive.
pub open spec fn values_positive(s: Seq<(u32, u32)>) -> bool {
    forall|i: int| 0 <= i < s.len() ==> #[trigger] s[i].1 > 0
}

/// Sparse map from items to positive `u32` values (such as external supply
/// per minute), with at most one entry per item, kept in insertion order.
#[derive(Debug)]
pub struct ItemNonZeroU32Map(VecMap<u32, u32>);

impl View for ItemNonZeroU32Map {
    type V = Seq<(u32, u32)>;

    /// The entries as `(item id number, value)` pairs.
    closed spec fn view(&self) -> Seq<(u32, u32)> {
        vec_map_entries(self.0)
    }
}

impl ItemNonZeroU32Map {
    #[verifier::type_invariant]
    closed spec fn inv(&self) -> bool {
        values_positive(vec_map_entries(self.0))
    }

    /// An empty map.
    pub fn new() -> (m: Self)
        ensures
            m@ == Seq::<(u32, u32)>::empty(),
    {
        ItemNonZeroU32Map(vm_new())
    }

    /// An empty map with room for `capacity` entries.
    pub fn with_capacity(capacity: usize) -> (m: Self)
        ensures
            m@ == Seq::<(u32, u32)>::empty(),
    {
        ItemNonZeroU32Map(vm_with_capacity(capacity))
    }

    /// Number of entries.
    pub fn len(&self) -> (n: usize)
        ensures
            n == self@.len(),
    {
        vm_len(&self.0)
    }

    /// Whether the map has no entry.
    pub fn is_empty(&self) -> (b: bool)
        ensures
            b == (self@.len() == 0),
    {
        vm_len(&self.0) == 0
    }

    /// Every value is positive.
    pub fn values_are_positive(&self)
        ensures
            values_positive(self@),
    {
        proof {
            use_type_invariant(self);
        }
    }

    /// Sets the value of `item` (a positive number), returning its previous
    /// value.
    pub fn insert(&mut self, item: ItemId, value: u32) -> (r: Option<u32>)
        requires
            value > 0,
        ensures
            final(self)@ == entries_insert(old(self)@, item.raw(), value),
            r == entries_get(old(self)@, item.raw()),
    {
        proof {
            use_type_invariant(&*self);
        }
        let mut inner = vm_new();
        std::mem::swap(&mut inner, &mut self.0);
        let ghost before = vec_map_entries(inner);
        let r = vm_insert(&mut inner, item.as_u32(), value);
        proof {
            lemma_first_key_index(before, item.raw());
            let after = vec_map_entries(inner);
            assert forall|i: int| 0 <= i < after.len() implies #[trigger] after[i].1 > 0 by {
                if i < before.len() {
                    if after[i] != before[i] {
                        assert(after[i].1 == value);
                    }
                }
            }
        }
        self.0 = inner;
        r
    }

    /// The value of `item`, if present.
    pub fn get(&self, item: ItemId) -> (r: Option<&u32>)
        ensures
            match r {
                Some(v) => entries_get(self@, item.raw()) == Some(*v),
                None => entries_get(self@, item.raw()) is None,
            },
    {
        vm_get(&self.0, item.as_u32())
    }

    /// All entries as `(item, value)` pairs, in insertion order.
    pub fn iter(&self) -> (v: Vec<(ItemId, u32)>)
        ensures
            v@.len() == self@.len(),
            forall|i: int|
                0 <= i < v@.len() ==> (#[trigger] v@[i]).0.raw() == self@[i].0 && v@[i].1
                    == self@[i].1 && v@[i].1 > 0,
    {
        proof {
            use_type_invariant(self);
        }
        let raw = vm_entries(&self.0);
        let mut out: Vec<(ItemId, u32)> = Vec::new();
        let mut i: usize = 0;
        while i < raw.len()
            invariant
                i <= raw@.len(),
                raw@ == self@,
                values_positive(self@),
                out@.len() == i,
                forall|j: int|
                    0 <= j < i ==> (#[trigger] out@[j]).0.raw() == raw@[j].0 && out@[j].1
                        == raw@[j].1,
            decreases raw@.len() - i,
        {
            let (k, v) = raw[i];
            out.push((ItemId::from_index(k as usize), v));
            i = i + 1;
        }
        out
    }

    /// A map holding the given pairs (positive values) inserted in order: a
    /// later value for the same item replaces an earlier one.
    pub fn from_pairs(pairs: Vec<(ItemId, u32)>) -> (m: Self)
        requires
            forall|i: int| 0 <= i < pairs@.len() ==> (#[trigger] pairs@[i]).1 > 0,
        ensures
            m@ == pairs_entries(pairs@),
    {
        let mut m = ItemNonZeroU32Map::with_capacity(pairs.len());
        let mut i: usize = 0;
        while i < pairs.len()
            invariant
                i <= pairs@.len(),
                forall|j: int| 0 <= j < pairs@.len() ==> (#[trigger] pairs@[j]).1 > 0,
                m@ == pairs_entries(pairs@.take(i as int)),
            decreases pairs@.len() - i,
        {
            let (item, value) = pairs[i];
            m.insert(item, value);
            assert(pairs@.take(i + 1).drop_last() =~= pairs@.take(i as int));
            i = i + 1;
        }
        assert(pairs@.take(pairs@.len() as int) =~= pairs@);
        m
    }
}

impl Clone for ItemNonZeroU32Map {
    fn clone(&self) -> (c: Self)
        ensures
            c@ == self@,
    {
        proof {
            use_type_invariant(self);
        }
        ItemNonZeroU32Map(vm_clone(&self.0))
    }
}

impl Default for ItemNonZeroU32Map {
    fn default() -> (m: Self)
        ensures
            m@ == Seq::<(u32, u32)>::empty(),
    {
        ItemNonZeroU32Map::new()
    }
}

// ---------------------------------------------------------------------------
// Outposts and scenario inputs
// ---------------------------------------------------------------------------

/// Identifier of an outpost: its dense index in the scenario's outposts.
#[derive(Debug, Clone, Copy, PartialEq, Eq, Structural, Hash, PartialOrd, Ord)]
pub struct OutpostId {
    raw: u32,
}

impl OutpostId {
    /// The id's number.
    pub closed spec fn raw(self) -> u32 {
        self.raw
    }

    /// The underlying numeric representation.
    pub fn as_u32(self) -> (r: u32)
        ensures
            r == self.raw(),
    {
        self.raw
    }

    /// The zero-based dense index of this outpost.
    pub fn index(self) -> (r: usize)
        ensures
            r == self.raw(),
    {
        self.raw as usize
    }

    pub(crate) fn from_index(index: usize) -> (r: OutpostId)
        requires
            index <= u32::MAX,
        ensures
            r.raw() == index,
    {
        OutpostId { raw: index as u32 }
    }
}

/// One outpost configuration: its price table and money cap.
#[derive(Debug)]
pub struct OutpostInput {
    pub key: Key,
    pub en: Option<DisplayName>,
    pub zh: Option<DisplayName>,
    pub money_cap_per_hour: u32,
    pub prices: ItemU32Map,
}

/// Errors returned when building [`AicInputs`].
#[derive(Debug)]
pub enum AicBuildError {
    DuplicateOutpostKey { key: Key },
}

impl AicBuildError {
    /// The message that describes this error.
    pub fn message(&self) -> (s: String)
        ensures
            match self {
                AicBuildError::DuplicateOutpostKey { key } => s@ == "Duplicate outpost key: "@
                    + key@,
            },
    {
        match self {
            AicBuildError::DuplicateOutpostKey { key } => {
                let mut s = string_of("Duplicate outpost key: ");
                push_str(&mut s, key.as_str());
                s
            },
        }
    }
}

/// No two outposts share a key.
pub open spec fn outpost_keys_distinct(outposts: Seq<OutpostInput>) -> bool {
    forall|i: int, j: int|
        0 <= i < j < outposts.len() ==> #[trigger] outposts[i].key@ != #[trigger] outposts[j].key@
}

/// Outposts `i < j` share `key`, and no two outposts before `j` share a key:
/// `j` is where the first repeated key shows up.
pub open spec fn first_repeated_key_at(outposts: Seq<OutpostInput>, i: int, j: int, key: Seq<char>) -> bool {
    &&& 0 <= i < j < outposts.len()
    &&& outposts[i].key@ == key
    &&& outposts[j].key@ == key
    &&& outpost_keys_distinct(outposts.take(j))
}

/// Position of the outpost with key `key`, if any.
fn find_outpost(outposts: &Vec<OutpostInput>, key: &str) -> (r: Option<usize>)
    ensures
        match r {
            Some(i) => i < outposts@.len() && outposts@[i as int].key@ == key@,
            None => forall|i: int| 0 <= i < outposts@.len() ==> (#[trigger] outposts@[i]).key@ != key@,
        },
{
    let mut i: usize = 0;
    while i < outposts.len()
        invariant
            i <= outposts@.len(),
            forall|j: int| 0 <= j < i ==> (#[trigger] outposts@[j]).key@ != key@,
        decreases outposts@.len() - i,
    {
        if outposts[i].key.matches(key) {
            return Some(i);
        }
        i = i + 1;
    }
    None
}

/// Full scenario inputs consumed by optimization.
#[derive(Debug)]
pub struct AicInputs {
    region: Region,
    supply_per_min: ItemNonZeroU32Map,
    external_consumption_per_min: ItemNonZeroU32Map,
    outposts: Vec<OutpostInput>,
    power_config: PowerConfig,
}

impl AicInputs {
    pub closed spec fn spec_region(&self) -> Region {
        self.region
    }

    pub closed spec fn spec_supply(&self) -> Seq<(u32, u32)> {
        self.supply_per_min@
    }

    pub closed spec fn spec_consumption(&self) -> Seq<(u32, u32)> {
        self.external_consumption_per_min@
    }

    pub closed spec fn spec_outposts(&self) -> Seq<OutpostInput> {
        self.outposts@
    }

    pub closed spec fn spec_power(&self) -> PowerConfig {
        self.power_config
    }

    #[verifier::type_invariant]
    closed spec fn inv(&self) -> bool {
        &&& outpost_keys_distinct(self.outposts@)
        &&& self.outposts@.len() <= u32::MAX
    }

    /// Builds scenario inputs from a list of outposts; refused when two
    /// outposts share a key (the first repeated key is reported).
    pub fn parse(
        power_config: PowerConfig,
        supply_per_min: ItemNonZeroU32Map,
        external_consumption_per_min: ItemNonZeroU32Map,
        outposts: Vec<OutpostInput>,
    ) -> (r: Result<AicInputs, AicBuildError>)
        requires
            outposts@.len() <= u32::MAX,
        ensures
            match r {
                Ok(a) => {
                    &&& outpost_keys_distinct(outposts@)
                    &&& a.spec_outposts() == outposts@
                    &&& a.spec_supply() == supply_per_min@
                    &&& a.spec_consumption() == external_consumption_per_min@
                    &&& a.spec_power() == power_config
                    &&& a.spec_region() == Region::FourthValley
                },
                Err(AicBuildError::DuplicateOutpostKey { key }) => exists|i: int, j: int|
                    #[trigger] first_repeated_key_at(outposts@, i, j, key@),
            },
    {
        let mut j: usize = 0;
        while j < outposts.len()
            invariant
                j <= outposts@.len(),
                forall|a: int, b: int|
                    0 <= a < b < j ==> #[trigger] outposts@[a].key@ != #[trigger] outposts@[b].key@,
            decreases outposts@.len() - j,
        {
            let mut i: usize = 0;
            while i < j
                invariant
                    i <= j < outposts@.len(),
                    forall|a: int| 0 <= a < i ==> #[trigger] outposts@[a].key@ != outposts@[j as int].key@,
                    forall|a: int, b: int|
                        0 <= a < b < j ==> #[trigger] outposts@[a].key@ != #[trigger] outposts@[b].key@,
                decreases j - i,
            {
                if outposts[i].key.matches(outposts[j].key.as_str()) {
                    let key = outposts[j].key.duplicate();
                    assert(outpost_keys_distinct(outposts@.take(j as int))) by {
                        let t = outposts@.take(j as int);
                        assert forall|a: int, b: int| 0 <= a < b < t.len() implies #[trigger] t[a].key@
                            != #[trigger] t[b].key@ by {
                            assert(t[a] == outposts@[a] && t[b] == outposts@[b]);
                        }
                    }
                    assert(first_repeated_key_at(outposts@, i as int, j as int, key@));
                    let r: Result<AicInputs, AicBuildError> = Err(AicBuildError::DuplicateOutpostKey { key });
                    assert(r matches Err(AicBuildError::DuplicateOutpostKey { key: k })
                        && first_repeated_key_at(outposts@, i as int, j as int, k@));
                    return r;
                }
                i = i + 1;
            }
            j = j + 1;
        }
        Ok(
            AicInputs {
                region: Region::FourthValley,
                supply_per_min,
                external_consumption_per_min,
                outposts,
                power_config,
            },
        )
    }

    /// Starts building scenario inputs (region defaults to Fourth Valley).
    pub fn builder(
        power_config: PowerConfig,
        supply_per_min: ItemNonZeroU32Map,
        external_consumption_per_min: ItemNonZeroU32Map,
    ) -> (b: AicInputsBuilder)
        ensures
            b.spec_outposts().len() == 0,
            b.spec_region() == Region::FourthValley,
            b.spec_supply() == supply_per_min@,
            b.spec_consumption() == external_consumption_per_min@,
            b.spec_power() == power_config,
    {
        AicInputsBuilder {
            region: Region::FourthValley,
            supply_per_min,
            external_consumption_per_min,
            outposts: Vec::new(),
            power_config,
        }
    }

    /// The scenario's region.
    pub fn region(&self) -> (r: Region)
        ensures
            r == self.spec_region(),
    {
        self.region
    }

    /// The power configuration.
    pub fn power_config(&self) -> (p: PowerConfig)
        ensures
            p == self.spec_power(),
    {
        self.power_config
    }

    /// External supply per minute, by item.
    pub fn supply_per_min(&self) -> (m: &ItemNonZeroU32Map)
        ensures
            m@ == self.spec_supply(),
    {
        &self.supply_per_min
    }

    /// External consumption per minute, by item.
    pub fn external_consumption_per_min(&self) -> (m: &ItemNonZeroU32Map)
        ensures
            m@ == self.spec_consumption(),
    {
        &self.external_consumption_per_min
    }

    /// All outposts in id order.
    pub fn outposts(&self) -> (r: &[OutpostInput])
        ensures
            r@ == self.spec_outposts(),
    {
        self.outposts.as_slice()
    }

    /// An outpost by id; `None` for an id outside this scenario.
    pub fn outpost(&self, id: OutpostId) -> (r: Option<&OutpostInput>)
        ensures
            match r {
                Some(o) => id.raw() < self.spec_outposts().len() && *o == self.spec_outposts()[id.raw() as int],
                None => id.raw() >= self.spec_outposts().len(),
            },
    {
        if id.index() < self.outposts.len() {
            Some(&self.outposts[id.index()])
        } else {
            None
        }
    }

    /// The ids of all outposts, in order.
    pub fn outpost_ids(&self) -> (ids: Vec<OutpostId>)
        ensures
            ids@.len() == self.spec_outposts().len(),
            forall|i: int| 0 <= i < ids@.len() ==> (#[trigger] ids@[i]).raw() == i,
    {
        proof {
            use_type_invariant(self);
        }
        let mut ids: Vec<OutpostId> = Vec::new();
        let n = self.outposts.len();
        let mut i: usize = 0;
        while i < n
            invariant
                i <= n,
                n == self.spec_outposts().len(),
                n <= u32::MAX,
                ids@.len() == i,
                forall|j: int| 0 <= j < i ==> (#[trigger] ids@[j]).raw() == j,
            decreases n - i,
        {
            ids.push(OutpostId::from_index(i));
            i = i + 1;
        }
        ids
    }

    /// Outpost keys are unique; it does no work at run time.
    pub fn keys_are_distinct(&self)
        ensures
            outpost_keys_distinct(self.spec_outposts()),
            self.spec_outposts().len() <= u32::MAX,
    {
        proof {
            use_type_invariant(self);
        }
    }
}

/// Builder for [`AicInputs`] that adds outposts one at a time.
#[derive(Debug)]
pub struct AicInputsBuilder {
    region: Region,
    supply_per_min: ItemNonZeroU32Map,
    external_consumption_per_min: ItemNonZeroU32Map,
    outposts: Vec<OutpostInput>,
    power_config: PowerConfig,
}

impl AicInputsBuilder {
    pub closed spec fn spec_region(&self) -> Region {
        self.region
    }

    pub closed spec fn spec_supply(&self) -> Seq<(u32, u32)> {
        self.supply_per_min@
    }

    pub closed spec fn spec_consumption(&self) -> Seq<(u32, u32)> {
        self.external_consumption_per_min@
    }

    pub closed spec fn spec_outposts(&self) -> Seq<OutpostInput> {
        self.outposts@
    }

    pub closed spec fn spec_power(&self) -> PowerConfig {
        self.power_config
    }

    #[verifier::type_invariant]
    closed spec fn inv(&self) -> bool {
        &&& outpost_keys_distinct(self.outposts@)
        &&& self.outposts@.len() <= u32::MAX
    }

    /// Sets the region.
    pub fn region(self, region: Region) -> (b: Self)
        ensures
            b.spec_region() == region,
            b.spec_outposts() == self.spec_outposts(),
            b.spec_supply() == self.spec_supply(),
            b.spec_consumption() == self.spec_consumption(),
            b.spec_power() == self.spec_power(),
    {
        proof {
            use_type_invariant(&self);
        }
        let AicInputsBuilder {
            region: _,
            supply_per_min,
            external_consumption_per_min,
            outposts,
            power_config,
        } = self;
        AicInputsBuilder {
            region,
            supply_per_min,
            external_consumption_per_min,
            outposts,
            power_config,
        }
    }

    /// Adds an outpost and returns its id, the next dense index. Refused when
    /// an outpost with the same key was added.
    pub fn add_outpost(&mut self, outpost: OutpostInput) -> (r: Result<OutpostId, AicBuildError>)
        requires
            old(self).spec_outposts().len() < u32::MAX,
        ensures
            match r {
                Ok(id) => {
                    &&& forall|i: int|
                        0 <= i < old(self).spec_outposts().len() ==> (
                        #[trigger] old(self).spec_outposts()[i]).key@ != outpost.key@
                    &&& id.raw() == old(self).spec_outposts().len()
                    &&& final(self).spec_outposts() == old(self).spec_outposts().push(outpost)
                },
                Err(AicBuildError::DuplicateOutpostKey { key }) => {
                    &&& key@ == outpost.key@
                    &&& exists|i: int|
                        0 <= i < old(self).spec_outposts().len() && (
                        #[trigger] old(self).spec_outposts()[i]).key@ == outpost.key@
                    &&& final(self).spec_outposts() == old(self).spec_outposts()
                },
            },
            final(self).spec_region() == old(self).spec_region(),
            final(self).spec_supply() == old(self).spec_supply(),
            final(self).spec_consumption() == old(self).spec_consumption(),
            final(self).spec_power() == old(self).spec_power(),
    {
        proof {
            use_type_invariant(&*self);
        }
        if let Some(_) = find_outpost(&self.outposts, outpost.key.as_str()) {
            return Err(AicBuildError::DuplicateOutpostKey { key: outpost.key });
        }
        let id = OutpostId::from_index(self.outposts.len());
        let mut v: Vec<OutpostInput> = Vec::new();
        std::mem::swap(&mut v, &mut self.outposts);
        let ghost before = v@;
        v.push(outpost);
        proof {
            assert forall|i: int, j: int|
                0 <= i < j < v@.len() implies #[trigger] v@[i].key@ != #[trigger] v@[j].key@ by {
                assert(v@[i] == before[i]);
                if j < before.len() {
                    assert(v@[j] == before[j]);
                }
            }
        }
        self.outposts = v;
        Ok(id)
    }

    /// Finalizes the inputs.
    pub fn build(self) -> (a: AicInputs)
        ensures
            a.spec_region() == self.spec_region(),
            a.spec_outposts() == self.spec_outposts(),
            a.spec_supply() == self.spec_supply(),
            a.spec_consumption() == self.spec_consumption(),
            a.spec_power() == self.spec_power(),
    {
        proof {
            use_type_invariant(&self);
        }
        let AicInputsBuilder {
            region,
            supply_per_min,
            external_consumption_per_min,
            outposts,
            power_config,
        } = self;
        AicInputs { region, supply_per_min, external_consumption_per_min, outposts, power_config }
    }
}

} // verus!
