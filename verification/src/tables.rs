//! The concurrent maps that the engine keeps its baskets and orders in.
//!
//! Every map is a `dashmap::DashMap` owned by one value of this library, so a
//! call sees no other writer. Each kind of map has a name for what it holds, a
//! mathematical map, and the calls below say what each `DashMap` method does to
//! it. Text keys are named by their characters.
use vstd::prelude::*;

use crate::models::basket::Basket;
use crate::models::order::Order;

verus! {

/// `dashmap::DashMap`, opaque: what one holds is given by the names below.
#[verifier::external_type_specification]
#[verifier::external_body]
#[verifier::reject_recursive_types(K)]
#[verifier::reject_recursive_types(V)]
#[verifier::reject_recursive_types(S)]
pub struct ExDashMap<K, V, S>(dashmap::DashMap<K, V, S>);

/// `listing` walks `m`: every entry once, in some order.
pub open spec fn walks<K, V>(listing: Seq<(K, V)>, m: Map<K, V>) -> bool {
    &&& m.dom().finite()
    &&& listing.len() == m.dom().len()
    &&& forall|i: int| 0 <= i < listing.len() ==> m.dom().contains((#[trigger] listing[i]).0)
    &&& forall|i: int| 0 <= i < listing.len() ==> m[(#[trigger] listing[i]).0] == listing[i].1
    &&& forall|i: int, j: int|
        0 <= i < j < listing.len() ==> (#[trigger] listing[i]).0 != (#[trigger] listing[j]).0
}

/// The entry under a key, where there is one.
pub open spec fn entry<K, V>(m: Map<K, V>, k: K) -> Option<V> {
    if m.dom().contains(k) {
        Some(m[k])
    } else {
        None
    }
}

/// The values of a listing.
pub open spec fn values_of<K, V>(listing: Seq<(K, V)>) -> Seq<V> {
    Seq::new(listing.len(), |i: int| listing[i].1)
}

/// `list` holds every value of a map once per key, in some order.
pub open spec fn lists_values<K, V>(list: Seq<V>, m: Map<K, V>) -> bool {
    exists|listing: Seq<(K, V)>| #[trigger] walks(listing, m) && list == values_of(listing)
}

/// Every key of a map occurs in a listing that walks it.
pub proof fn lemma_walk_reaches<K, V>(listing: Seq<(K, V)>, m: Map<K, V>, k: K)
    requires
        walks(listing, m),
        m.dom().contains(k),
    ensures
        exists|i: int| 0 <= i < listing.len() && (#[trigger] listing[i]).0 == k,
{
    let keys = Seq::new(listing.len(), |i: int| listing[i].0);
    assert(keys.no_duplicates());
    keys.unique_seq_to_set();
    assert(keys.to_set().subset_of(m.dom()));
    vstd::set_lib::lemma_subset_equality(keys.to_set(), m.dom());
    assert(keys.to_set().contains(k));
    let i = choose|i: int| 0 <= i < keys.len() && keys[i] == k;
    assert(listing[i].0 == k);
}

/// Baskets by identifier.
pub type BasketTable = dashmap::DashMap<u128, Basket>;

/// What a [`BasketTable`] holds.
pub uninterp spec fn baskets_in(m: BasketTable) -> Map<u128, Basket>;

/// `DashMap::new`: a map that holds nothing.
#[verifier::external_body]
pub(crate) fn baskets_new() -> (m: BasketTable)
    ensures
        baskets_in(m).dom() == Set::<u128>::empty(),
{
    dashmap::DashMap::new()
}

/// `DashMap::insert`: the value is stored under the key, over whatever was
/// there, and what was there is handed back.
#[verifier::external_body]
pub(crate) fn baskets_insert(m: &mut BasketTable, k: u128, v: Basket) -> (before: Option<Basket>)
    ensures
        baskets_in(*final(m)) == baskets_in(*old(m)).insert(k, v),
        before == entry(baskets_in(*old(m)), k),
{
    m.insert(k, v)
}

/// `DashMap::get`: the value under the key, if there is one.
#[verifier::external_body]
pub(crate) fn baskets_get(m: &BasketTable, k: u128) -> (v: Option<Basket>)
    ensures
        v == entry(baskets_in(*m), k),
{
    m.get(&k).map(|e| *e.value())
}

/// `DashMap::iter`: every entry once. The order is left open.
#[verifier::external_body]
pub(crate) fn baskets_walk(m: &BasketTable) -> (listing: Vec<(u128, Basket)>)
    ensures
        walks(listing@, baskets_in(*m)),
{
    m.iter().map(|e| (*e.key(), *e.value())).collect()
}

/// The basket that an order belongs to, by order identifier.
pub type LinkTable = dashmap::DashMap<u128, u128>;

/// What a [`LinkTable`] holds.
pub uninterp spec fn links_in(m: LinkTable) -> Map<u128, u128>;

/// `DashMap::new`: a map that holds nothing.
#[verifier::external_body]
pub(crate) fn links_new() -> (m: LinkTable)
    ensures
        links_in(m).dom() == Set::<u128>::empty(),
{
    dashmap::DashMap::new()
}

/// `DashMap::insert`: the value is stored under the key, over whatever was
/// there, and what was there is handed back.
#[verifier::external_body]
pub(crate) fn links_insert(m: &mut LinkTable, k: u128, v: u128) -> (before: Option<u128>)
    ensures
        links_in(*final(m)) == links_in(*old(m)).insert(k, v),
        before == entry(links_in(*old(m)), k),
{
    m.insert(k, v)
}

/// `DashMap::get`: the value under the key, if there is one.
#[verifier::external_body]
pub(crate) fn links_get(m: &LinkTable, k: u128) -> (v: Option<u128>)
    ensures
        v == entry(links_in(*m), k),
{
    m.get(&k).map(|e| *e.value())
}

/// Resting paper orders by identifier.
pub type PaperTable = dashmap::DashMap<u128, Order>;

/// What a [`PaperTable`] holds.
pub uninterp spec fn paper_orders_in(m: PaperTable) -> Map<u128, Order>;

/// `DashMap::new`: a map that holds nothing.
#[verifier::external_body]
pub(crate) fn paper_new() -> (m: PaperTable)
    ensures
        paper_orders_in(m).dom() == Set::<u128>::empty(),
{
    dashmap::DashMap::new()
}

/// `DashMap::insert`: the value is stored under the key, over whatever was
/// there, and what was there is handed back.
#[verifier::external_body]
pub(crate) fn paper_insert(m: &mut PaperTable, k: u128, v: Order) -> (before: Option<Order>)
    ensures
        paper_orders_in(*final(m)) == paper_orders_in(*old(m)).insert(k, v),
        before == entry(paper_orders_in(*old(m)), k),
{
    m.insert(k, v)
}

/// `DashMap::remove`: the key and its value are gone, and the value is handed
/// back if there was one.
#[verifier::external_body]
pub(crate) fn paper_remove(m: &mut PaperTable, k: u128) -> (v: Option<Order>)
    ensures
        paper_orders_in(*final(m)) == paper_orders_in(*old(m)).remove(k),
        v == entry(paper_orders_in(*old(m)), k),
{
    m.remove(&k).map(|e| e.1)
}

/// `DashMap::clear`: nothing is left.
#[verifier::external_body]
pub(crate) fn paper_clear(m: &mut PaperTable)
    ensures
        paper_orders_in(*final(m)).dom() == Set::<u128>::empty(),
{
    m.clear();
}

/// `DashMap::iter`: every entry once. The order is left open.
#[verifier::external_body]
pub(crate) fn paper_walk(m: &PaperTable) -> (listing: Vec<(u128, Order)>)
    ensures
        walks(listing@, paper_orders_in(*m)),
{
    m.iter().map(|e| (*e.key(), *e.value())).collect()
}

/// Tracked orders by the identifier that a venue gave them as text.
pub type OrderTable = dashmap::DashMap<String, Order>;

/// What a [`OrderTable`] holds.
pub uninterp spec fn orders_in(m: OrderTable) -> Map<Seq<char>, Order>;

/// `DashMap::new`: a map that holds nothing.
#[verifier::external_body]
pub(crate) fn orders_new() -> (m: OrderTable)
    ensures
        orders_in(m).dom() == Set::<Seq<char>>::empty(),
{
    dashmap::DashMap::new()
}

/// `DashMap::insert`: the value is stored under the key, over whatever was
/// there, and what was there is handed back.
#[verifier::external_body]
pub(crate) fn orders_insert(m: &mut OrderTable, k: String, v: Order) -> (before: Option<Order>)
    ensures
        orders_in(*final(m)) == orders_in(*old(m)).insert(k@, v),
        before == entry(orders_in(*old(m)), k@),
{
    m.insert(k, v)
}

/// `DashMap::get`: the value under the key, if there is one.
#[verifier::external_body]
pub(crate) fn orders_get(m: &OrderTable, k: &str) -> (v: Option<Order>)
    ensures
        v == entry(orders_in(*m), k@),
{
    m.get(k).map(|e| *e.value())
}

/// `DashMap::remove`: the key and its value are gone, and the value is handed
/// back if there was one.
#[verifier::external_body]
pub(crate) fn orders_remove(m: &mut OrderTable, k: &str) -> (v: Option<Order>)
    ensures
        orders_in(*final(m)) == orders_in(*old(m)).remove(k@),
        v == entry(orders_in(*old(m)), k@),
{
    m.remove(k).map(|e| e.1)
}

/// `DashMap::clear`: nothing is left.
#[verifier::external_body]
pub(crate) fn orders_clear(m: &mut OrderTable)
    ensures
        orders_in(*final(m)).dom() == Set::<Seq<char>>::empty(),
{
    m.clear();
}

/// `DashMap::iter`: every entry once. The order is left open.
#[verifier::external_body]
pub(crate) fn orders_walk(m: &OrderTable) -> (listing: Vec<(String, Order)>)
    ensures
        walks(listing@.map_values(|e: (String, Order)| (e.0@, e.1)), orders_in(*m)),
{
    m.iter().map(|e| (e.key().clone(), *e.value())).collect()
}

/// Identifiers of trades that were dealt with.
pub type TradeTable = dashmap::DashMap<String, ()>;

/// What a [`TradeTable`] holds.
pub uninterp spec fn trades_in(m: TradeTable) -> Map<Seq<char>, ()>;

/// `DashMap::new`: a map that holds nothing.
#[verifier::external_body]
pub(crate) fn trades_new() -> (m: TradeTable)
    ensures
        trades_in(m).dom() == Set::<Seq<char>>::empty(),
{
    dashmap::DashMap::new()
}

/// `DashMap::insert`: the value is stored under the key, over whatever was
/// there, and what was there is handed back.
#[verifier::external_body]
pub(crate) fn trades_insert(m: &mut TradeTable, k: String, v: ()) -> (before: Option<()>)
    ensures
        trades_in(*final(m)) == trades_in(*old(m)).insert(k@, v),
        before == entry(trades_in(*old(m)), k@),
{
    m.insert(k, v)
}

/// `DashMap::remove`: the key and its value are gone, and the value is handed
/// back if there was one.
#[verifier::external_body]
pub(crate) fn trades_remove(m: &mut TradeTable, k: &str) -> (v: Option<()>)
    ensures
        trades_in(*final(m)) == trades_in(*old(m)).remove(k@),
        v == entry(trades_in(*old(m)), k@),
{
    m.remove(k).map(|e| e.1)
}

/// `DashMap::iter`: every entry once. The order is left open.
#[verifier::external_body]
pub(crate) fn trades_walk(m: &TradeTable) -> (listing: Vec<(String, ())>)
    ensures
        walks(listing@.map_values(|e: (String, ())| (e.0@, e.1)), trades_in(*m)),
{
    m.iter().map(|e| (e.key().clone(), *e.value())).collect()
}

/// Orders that left the book, with the moment they were last seen.
pub type GraceTable = dashmap::DashMap<String, (Order, i64)>;

/// What a [`GraceTable`] holds.
pub uninterp spec fn grace_in(m: GraceTable) -> Map<Seq<char>, (Order, i64)>;

/// `DashMap::new`: a map that holds nothing.
#[verifier::external_body]
pub(crate) fn grace_new() -> (m: GraceTable)
    ensures
        grace_in(m).dom() == Set::<Seq<char>>::empty(),
{
    dashmap::DashMap::new()
}

/// `DashMap::insert`: the value is stored under the key, over whatever was
/// there, and what was there is handed back.
#[verifier::external_body]
pub(crate) fn grace_insert(m: &mut GraceTable, k: String, v: (Order, i64)) -> (before: Option<(Order, i64)>)
    ensures
        grace_in(*final(m)) == grace_in(*old(m)).insert(k@, v),
        before == entry(grace_in(*old(m)), k@),
{
    m.insert(k, v)
}

/// `DashMap::get`: the value under the key, if there is one.
#[verifier::external_body]
pub(crate) fn grace_get(m: &GraceTable, k: &str) -> (v: Option<(Order, i64)>)
    ensures
        v == entry(grace_in(*m), k@),
{
    m.get(k).map(|e| *e.value())
}

/// `DashMap::remove`: the key and its value are gone, and the value is handed
/// back if there was one.
#[verifier::external_body]
pub(crate) fn grace_remove(m: &mut GraceTable, k: &str) -> (v: Option<(Order, i64)>)
    ensures
        grace_in(*final(m)) == grace_in(*old(m)).remove(k@),
        v == entry(grace_in(*old(m)), k@),
{
    m.remove(k).map(|e| e.1)
}

/// `DashMap::iter`: every entry once. The order is left open.
#[verifier::external_body]
pub(crate) fn grace_walk(m: &GraceTable) -> (listing: Vec<(String, (Order, i64))>)
    ensures
        walks(listing@.map_values(|e: (String, (Order, i64))| (e.0@, e.1)), grace_in(*m)),
{
    m.iter().map(|e| (e.key().clone(), *e.value())).collect()
}

/// Tracked orders by the number that a venue gave them.
pub type OidTable = dashmap::DashMap<u64, Order>;

/// What a [`OidTable`] holds.
pub uninterp spec fn oids_in(m: OidTable) -> Map<u64, Order>;

/// `DashMap::new`: a map that holds nothing.
#[verifier::external_body]
pub(crate) fn oids_new() -> (m: OidTable)
    ensures
        oids_in(m).dom() == Set::<u64>::empty(),
{
    dashmap::DashMap::new()
}

/// `DashMap::insert`: the value is stored under the key, over whatever was
/// there, and what was there is handed back.
#[verifier::external_body]
pub(crate) fn oids_insert(m: &mut OidTable, k: u64, v: Order) -> (before: Option<Order>)
    ensures
        oids_in(*final(m)) == oids_in(*old(m)).insert(k, v),
        before == entry(oids_in(*old(m)), k),
{
    m.insert(k, v)
}

/// `DashMap::get`: the value under the key, if there is one.
#[verifier::external_body]
pub(crate) fn oids_get(m: &OidTable, k: u64) -> (v: Option<Order>)
    ensures
        v == entry(oids_in(*m), k),
{
    m.get(&k).map(|e| *e.value())
}

/// `DashMap::remove`: the key and its value are gone, and the value is handed
/// back if there was one.
#[verifier::external_body]
pub(crate) fn oids_remove(m: &mut OidTable, k: u64) -> (v: Option<Order>)
    ensures
        oids_in(*final(m)) == oids_in(*old(m)).remove(k),
        v == entry(oids_in(*old(m)), k),
{
    m.remove(&k).map(|e| e.1)
}

/// `DashMap::clear`: nothing is left.
#[verifier::external_body]
pub(crate) fn oids_clear(m: &mut OidTable)
    ensures
        oids_in(*final(m)).dom() == Set::<u64>::empty(),
{
    m.clear();
}

/// `DashMap::iter`: every entry once. The order is left open.
#[verifier::external_body]
pub(crate) fn oids_walk(m: &OidTable) -> (listing: Vec<(u64, Order)>)
    ensures
        walks(listing@, oids_in(*m)),
{
    m.iter().map(|e| (*e.key(), *e.value())).collect()
}

} // verus!
