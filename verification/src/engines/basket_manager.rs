//! The set of baskets of one agent, and the basket that each order belongs to.
use vstd::prelude::*;

use crate::amount::{clamp, clamped};
use crate::models::basket::{Basket, BasketSide, BasketStatus};
use crate::models::config::BasketConfig;
use crate::models::order::Side;
use crate::tables::{
    baskets_get, baskets_in, baskets_insert, baskets_new, baskets_walk, entry, lemma_walk_reaches,
    links_get, links_in, links_insert, links_new, walks, BasketTable, LinkTable,
};

verus! {

/// The baskets of an agent.
pub struct BasketManager {
    pub baskets: BasketTable,
    pub order_to_basket: LinkTable,
    pub config: BasketConfig,
    /// The basket that receives entries; `None` until one was promoted.
    pub active_basket_id: Option<u128>,
}

/// Baskets by identifier, each under its own, with indices that tell them apart.
pub open spec fn book_wf(m: Map<u128, Basket>) -> bool {
    &&& m.dom().finite()
    &&& forall|k: u128| #[trigger] m.dom().contains(k) ==> m[k].basket_id == k
    &&& forall|j: u128, k: u128|
        #![trigger m.dom().contains(j), m.dom().contains(k)]
        m.dom().contains(j) && m.dom().contains(k) && m[j].index == m[k].index ==> j == k
}

/// The basket exists and may still trade.
pub open spec fn alive(m: Map<u128, Basket>, k: u128) -> bool {
    m.dom().contains(k) && m[k].status != BasketStatus::Killed
}

/// `k` is the basket of lowest index among those that satisfy `p`.
pub open spec fn is_lowest(m: Map<u128, Basket>, p: spec_fn(Basket) -> bool, k: u128) -> bool {
    &&& m.dom().contains(k)
    &&& p(m[k])
    &&& forall|j: u128| #[trigger]
        m.dom().contains(j) && p(m[j]) ==> m[k].index <= m[j].index
}

/// The basket of lowest index among those that satisfy `p`, if any does.
pub open spec fn lowest(m: Map<u128, Basket>, p: spec_fn(Basket) -> bool) -> Option<u128> {
    if exists|k: u128| m.dom().contains(k) && p(m[k]) {
        Some(choose|k: u128| is_lowest(m, p, k))
    } else {
        None
    }
}

/// What a basket is looked for by.
#[derive(Debug, Clone, Copy, PartialEq, Eq, Structural)]
pub enum Fit {
    /// It is not killed.
    Alive,
    /// It can take a quantity.
    Room { qty: i64 },
    /// It trades a direction and can take a quantity.
    RoomOn { side: BasketSide, qty: i64 },
}

impl Fit {
    /// The basket fits.
    pub open spec fn fits(self, b: Basket) -> bool {
        match self {
            Fit::Alive => b.status != BasketStatus::Killed,
            Fit::Room { qty } => b.takes(qty),
            Fit::RoomOn { side, qty } => b.side == side && b.takes(qty),
        }
    }

    /// The baskets that fit.
    pub open spec fn test(self) -> spec_fn(Basket) -> bool {
        |b: Basket| self.fits(b)
    }

    /// The basket fits.
    fn admits(self, b: &Basket) -> (r: bool)
        ensures
            r == self.fits(*b),
    {
        match self {
            Fit::Alive => b.status != BasketStatus::Killed,
            Fit::Room { qty } => b.has_capacity(qty),
            Fit::RoomOn { side, qty } => b.side == side && b.has_capacity(qty),
        }
    }
}

/// The basket of lowest index that is not killed.
pub open spec fn first_alive(m: Map<u128, Basket>) -> Option<u128> {
    lowest(m, Fit::Alive.test())
}

/// The basket of lowest index that can take a quantity.
pub open spec fn first_roomy(m: Map<u128, Basket>, qty: i64) -> Option<u128> {
    lowest(m, (Fit::Room { qty }).test())
}

/// The basket of lowest index on a side that can take a quantity.
pub open spec fn first_taking(m: Map<u128, Basket>, side: BasketSide, qty: i64) -> Option<u128> {
    lowest(m, (Fit::RoomOn { side, qty }).test())
}

/// How many baskets satisfy `p`.
pub open spec fn count(m: Map<u128, Basket>, p: spec_fn(Basket) -> bool) -> nat {
    m.dom().filter(|k: u128| p(m[k])).len()
}

/// How many baskets are killed.
pub open spec fn killed_in(m: Map<u128, Basket>) -> nat {
    count(m, |b: Basket| b.status == BasketStatus::Killed)
}

/// How many baskets are not killed.
pub open spec fn alive_in(m: Map<u128, Basket>) -> nat {
    count(m, |b: Basket| b.status != BasketStatus::Killed)
}

/// How many baskets trade a direction.
pub open spec fn on_side(m: Map<u128, Basket>, side: BasketSide) -> nat {
    count(m, |b: Basket| b.side == side)
}

/// There are baskets, and every one of them is killed.
pub open spec fn every_killed(m: Map<u128, Basket>) -> bool {
    &&& m.dom() != Set::<u128>::empty()
    &&& forall|k: u128| #[trigger] m.dom().contains(k) ==> m[k].status == BasketStatus::Killed
}

/// The sum of `f` over all baskets.
pub open spec fn total(m: Map<u128, Basket>, f: spec_fn(Basket) -> int) -> int
    decreases m.dom().len(),
    when m.dom().finite()
{
    if m.dom().len() == 0 {
        0
    } else {
        let k = m.dom().choose();
        f(m[k]) + total(m.remove(k), f)
    }
}

/// The sum of all position sizes.
pub open spec fn open_total(m: Map<u128, Basket>) -> int {
    total(m, |b: Basket| b.open_qty as int)
}

/// The sum of all realised results.
pub open spec fn realized_total(m: Map<u128, Basket>) -> int {
    total(m, |b: Basket| b.realized_pnl as int)
}

/// The sum of all positions, long ones positive and short ones negative.
pub open spec fn net_total(m: Map<u128, Basket>) -> int {
    total(m, |b: Basket| b.net())
}

/// The direction of a new basket: by turns, so that half of the baskets trade
/// long and half short, with one more long one where their number is odd.
pub open spec fn side_at(index: int) -> BasketSide {
    if index % 2 == 0 {
        BasketSide::Long
    } else {
        BasketSide::Short
    }
}

/// The baskets that a manager starts with: one per identifier, indexed in
/// order, long and short by turns. A repeated identifier keeps its last basket.
pub open spec fn seeded(
    ids: Seq<u128>,
    size: i64,
    is_inverse: bool,
    tp_spread: i64,
) -> Map<u128, Basket>
    decreases ids.len(),
{
    if ids.len() == 0 {
        Map::empty()
    } else {
        seeded(ids.drop_last(), size, is_inverse, tp_spread).insert(
            ids.last(),
            Basket::untraded(
                ids.last(),
                (ids.len() - 1) as u32,
                side_at(ids.len() - 1),
                size,
                is_inverse,
                tp_spread,
            ),
        )
    }
}

/// A choice of baskets.
#[derive(Debug, Clone, Copy, PartialEq, Eq, Structural)]
pub enum Choice {
    /// Those whose own stop-loss has fired at this mid.
    StoppedOut { mid: i64 },
    /// Those with a position.
    Holding,
    /// Those whose books are not flat, on whatever side of zero.
    Exposed,
}

impl Choice {
    /// The basket is among them.
    pub open spec fn takes(self, b: Basket) -> bool {
        match self {
            Choice::StoppedOut { mid } => b.stopped_out(mid),
            Choice::Holding => b.open_qty > 0,
            Choice::Exposed => b.open_qty != 0,
        }
    }
}

/// `list` holds every chosen basket of the book once, in some order.
pub open spec fn chosen(list: Seq<Basket>, m: Map<u128, Basket>, choice: Choice) -> bool {
    &&& forall|i: int|
        0 <= i < list.len() ==> entry(m, (#[trigger] list[i]).basket_id) == Some(list[i])
            && choice.takes(list[i])
    &&& forall|i: int, j: int|
        0 <= i < j < list.len() ==> (#[trigger] list[i]).basket_id != (
        #[trigger] list[j]).basket_id
    &&& forall|k: u128| #[trigger]
        m.dom().contains(k) && choice.takes(m[k]) ==> list.contains(m[k])
}

/// `list` holds every basket of the book once, by rising index.
pub open spec fn lists_book(list: Seq<Basket>, m: Map<u128, Basket>) -> bool {
    &&& list.len() == m.dom().len()
    &&& forall|i: int|
        0 <= i < list.len() ==> entry(m, (#[trigger] list[i]).basket_id) == Some(list[i])
    &&& forall|k: u128| #[trigger] m.dom().contains(k) ==> list.contains(m[k])
    &&& forall|i: int, j: int|
        0 <= i < j < list.len() ==> (#[trigger] list[i]).index < (#[trigger] list[j]).index
}

/// The same baskets, every one of them killed.
pub open spec fn all_marked_killed(m: Map<u128, Basket>) -> Map<u128, Basket> {
    m.map_values(|b: Basket| Basket { status: BasketStatus::Killed, ..b })
}

/// The same baskets, those that are not killed closed at a price and reset.
pub open spec fn all_reset(m: Map<u128, Basket>, price: i64) -> Map<u128, Basket> {
    m.map_values(
        |b: Basket|
            if b.status == BasketStatus::Killed {
                b
            } else {
                b.soft_resetted(price)
            },
    )
}

/// Taking one basket out of a sum takes out its share.
pub proof fn lemma_total_remove(m: Map<u128, Basket>, f: spec_fn(Basket) -> int, k: u128)
    requires
        m.dom().finite(),
        m.dom().contains(k),
    ensures
        total(m, f) == f(m[k]) + total(m.remove(k), f),
    decreases m.dom().len(),
{
    let c = m.dom().choose();
    if k != c {
        lemma_total_remove(m.remove(c), f, k);
        lemma_total_remove(m.remove(k), f, c);
        assert(m.remove(c).remove(k) =~= m.remove(k).remove(c));
    }
}

/// Replacing one basket in a sum replaces its share.
pub proof fn lemma_total_replace(
    m: Map<u128, Basket>,
    f: spec_fn(Basket) -> int,
    k: u128,
    b: Basket,
)
    requires
        m.dom().finite(),
        m.dom().contains(k),
    ensures
        total(m.insert(k, b), f) == total(m, f) - f(m[k]) + f(b),
{
    lemma_total_remove(m, f, k);
    lemma_total_remove(m.insert(k, b), f, k);
    assert(m.insert(k, b).remove(k) =~= m.remove(k));
}

/// The sum of `f` over a listing.
pub open spec fn listed_total(listing: Seq<(u128, Basket)>, f: spec_fn(Basket) -> int) -> int
    decreases listing.len(),
{
    if listing.len() == 0 {
        0
    } else {
        listed_total(listing.drop_last(), f) + f(listing.last().1)
    }
}

/// The order in which baskets are listed does not change their sum.
proof fn lemma_walk_total(
    listing: Seq<(u128, Basket)>,
    m: Map<u128, Basket>,
    f: spec_fn(Basket) -> int,
)
    requires
        walks(listing, m),
    ensures
        listed_total(listing, f) == total(m, f),
    decreases listing.len(),
{
    if listing.len() > 0 {
        let k = listing.last().0;
        let front = listing.drop_last();
        assert(m.dom().contains(k));
        assert forall|i: int| 0 <= i < front.len() implies m.remove(k).dom().contains(
            (#[trigger] front[i]).0,
        ) && m.remove(k)[front[i].0] == front[i].1 by {
            assert(front[i] == listing[i]);
            assert(listing[listing.len() - 1].0 == k);
        }
        assert forall|i: int, j: int| 0 <= i < j < front.len() implies (#[trigger] front[i]).0
            != (#[trigger] front[j]).0 by {
            assert(front[i] == listing[i] && front[j] == listing[j]);
        }
        lemma_walk_total(front, m.remove(k), f);
        lemma_total_remove(m, f, k);
        assert(listing.last() == listing[listing.len() - 1]);
    }
}

/// A replaced basket that keeps its identifier and index keeps the book in
/// order.
pub proof fn lemma_book_put(m: Map<u128, Basket>, b: Basket)
    requires
        book_wf(m),
        m.dom().contains(b.basket_id),
        m[b.basket_id].index == b.index,
    ensures
        book_wf(m.insert(b.basket_id, b)),
        m.insert(b.basket_id, b).dom() == m.dom(),
{
    let n = m.insert(b.basket_id, b);
    assert(n.dom() =~= m.dom());
    assert forall|j: u128, k: u128|
        #![trigger n.dom().contains(j), n.dom().contains(k)]
        n.dom().contains(j) && n.dom().contains(k) && n[j].index == n[k].index implies j == k by {
        assert(m.dom().contains(j) && m.dom().contains(k));
    }
}

/// A finite book with a candidate has one of lowest index.
proof fn lemma_lowest_exists(m: Map<u128, Basket>, p: spec_fn(Basket) -> bool, k: u128)
    requires
        m.dom().contains(k),
        p(m[k]),
    ensures
        exists|j: u128| is_lowest(m, p, j),
    decreases m[k].index,
{
    if !is_lowest(m, p, k) {
        let j = choose|j: u128| #[trigger]
            m.dom().contains(j) && p(m[j]) && m[j].index < m[k].index;
        lemma_lowest_exists(m, p, j);
    }
}

/// The basket of lowest index is the only one of its kind.
pub proof fn lemma_lowest_unique(m: Map<u128, Basket>, p: spec_fn(Basket) -> bool, k: u128)
    requires
        book_wf(m),
        is_lowest(m, p, k),
    ensures
        lowest(m, p) == Some(k),
{
    let c = choose|c: u128| is_lowest(m, p, c);
    assert(is_lowest(m, p, c));
    assert(m.dom().contains(c) && m.dom().contains(k));
}

/// What a lowest basket is: present, fit, and not above any other fit one.
pub proof fn lemma_lowest_is(m: Map<u128, Basket>, p: spec_fn(Basket) -> bool)
    ensures
        lowest(m, p) matches Some(k) ==> is_lowest(m, p, k),
        lowest(m, p) is None ==> forall|k: u128| #[trigger] m.dom().contains(k) ==> !p(m[k]),
{
    if exists|k: u128| m.dom().contains(k) && p(m[k]) {
        let k = choose|k: u128| m.dom().contains(k) && p(m[k]);
        lemma_lowest_exists(m, p, k);
    }
}

/// A seeded book is in order, and every basket of it is untraded and trades the
/// direction of its turn.
pub proof fn lemma_seeded(ids: Seq<u128>, size: i64, is_inverse: bool, tp_spread: i64)
    requires
        ids.len() <= u32::MAX,
    ensures
        book_wf(seeded(ids, size, is_inverse, tp_spread)),
        forall|k: u128|
            #![trigger seeded(ids, size, is_inverse, tp_spread).dom().contains(k)]
            seeded(ids, size, is_inverse, tp_spread).dom().contains(k) ==> {
                let b = seeded(ids, size, is_inverse, tp_spread)[k];
                &&& b.index < ids.len()
                &&& ids[b.index as int] == k
                &&& b == Basket::untraded(
                    k,
                    b.index,
                    side_at(b.index as int),
                    size,
                    is_inverse,
                    tp_spread,
                )
            },
        forall|i: int|
            0 <= i < ids.len() ==> seeded(ids, size, is_inverse, tp_spread).dom().contains(
                #[trigger] ids[i],
            ),
    decreases ids.len(),
{
    if ids.len() > 0 {
        lemma_seeded(ids.drop_last(), size, is_inverse, tp_spread);
        let m0 = seeded(ids.drop_last(), size, is_inverse, tp_spread);
        let m = seeded(ids, size, is_inverse, tp_spread);
        assert forall|i: int| 0 <= i < ids.len() implies m.dom().contains(#[trigger] ids[i]) by {
            if i < ids.len() - 1 {
                assert(ids.drop_last()[i] == ids[i]);
            }
        }
        assert forall|k: u128| #[trigger] m.dom().contains(k) implies ({
            &&& m[k].index < ids.len()
            &&& ids[m[k].index as int] == k
        }) by {
            if k != ids.last() {
                assert(m0.dom().contains(k));
                assert(ids.drop_last()[m0[k].index as int] == ids[m0[k].index as int]);
            }
        }
    }
}

/// Distinct identifiers seed one basket each: as many baskets as identifiers.
pub proof fn seeded_is_full(ids: Seq<u128>, size: i64, is_inverse: bool, tp_spread: i64)
    requires
        ids.len() <= u32::MAX,
        ids.no_duplicates(),
    ensures
        seeded(ids, size, is_inverse, tp_spread).dom().len() == ids.len(),
        forall|i: int|
            0 <= i < ids.len() ==> seeded(ids, size, is_inverse, tp_spread)[#[trigger] ids[i]].index
                == i,
{
    lemma_seeded(ids, size, is_inverse, tp_spread);
    let m = seeded(ids, size, is_inverse, tp_spread);
    assert(m.dom() =~= ids.to_set());
    ids.unique_seq_to_set();
    assert forall|i: int| 0 <= i < ids.len() implies m[#[trigger] ids[i]].index == i by {
        assert(m.dom().contains(ids[i]));
        assert(ids[m[ids[i]].index as int] == ids[i]);
    }
}

/// Half of the baskets that distinct identifiers seed are long and half short;
/// where their number is odd there is one more long one.
pub proof fn seeded_is_half_and_half(ids: Seq<u128>, size: i64, is_inverse: bool, tp_spread: i64)
    requires
        ids.len() <= u32::MAX,
        ids.no_duplicates(),
    ensures
        on_side(seeded(ids, size, is_inverse, tp_spread), BasketSide::Long) == (ids.len() + 1) / 2,
        on_side(seeded(ids, size, is_inverse, tp_spread), BasketSide::Short) == ids.len() / 2,
    decreases ids.len(),
{
    let m = seeded(ids, size, is_inverse, tp_spread);
    let long = |b: Basket| b.side == BasketSide::Long;
    let short = |b: Basket| b.side == BasketSide::Short;
    if ids.len() == 0 {
        assert(m.dom().filter(|k: u128| long(m[k])) =~= Set::empty());
        assert(m.dom().filter(|k: u128| short(m[k])) =~= Set::empty());
    } else {
        let front = ids.drop_last();
        let m0 = seeded(front, size, is_inverse, tp_spread);
        seeded_is_half_and_half(front, size, is_inverse, tp_spread);
        lemma_seeded(front, size, is_inverse, tp_spread);
        assert(!m0.dom().contains(ids.last())) by {
            if m0.dom().contains(ids.last()) {
                let i = m0[ids.last()].index as int;
                assert(front[i] == ids[i]);
                assert(ids[i] == ids[ids.len() - 1]);
            }
        }
        lemma_count_insert(m0, long, ids.last(), m[ids.last()]);
        lemma_count_insert(m0, short, ids.last(), m[ids.last()]);
    }
}

/// A new basket counts when it satisfies `p`.
proof fn lemma_count_insert(m: Map<u128, Basket>, p: spec_fn(Basket) -> bool, k: u128, b: Basket)
    requires
        m.dom().finite(),
        !m.dom().contains(k),
    ensures
        count(m.insert(k, b), p) == count(m, p) + if p(b) {
            1nat
        } else {
            0nat
        },
{
    let n = m.insert(k, b);
    let before = m.dom().filter(|j: u128| p(m[j]));
    let after = n.dom().filter(|j: u128| p(n[j]));
    if p(b) {
        assert(after =~= before.insert(k));
    } else {
        assert(after =~= before);
    }
}

/// The books of killed and of tradeable baskets partition the book.
pub proof fn alive_and_killed_partition(m: Map<u128, Basket>)
    requires
        m.dom().finite(),
    ensures
        alive_in(m) + killed_in(m) == m.dom().len(),
{
    let dead = m.dom().filter(|k: u128| (|b: Basket| b.status == BasketStatus::Killed)(m[k]));
    let live = m.dom().filter(|k: u128| (|b: Basket| b.status != BasketStatus::Killed)(m[k]));
    assert(dead.union(live) =~= m.dom());
    assert(dead.disjoint(live));
    vstd::set_lib::lemma_set_disjoint_lens(dead, live);
}

/// Every basket is killed exactly when there are baskets and none is alive.
pub proof fn all_killed_means_none_alive(m: Map<u128, Basket>)
    requires
        m.dom().finite(),
    ensures
        every_killed(m) <==> m.dom().len() > 0 && alive_in(m) == 0,
        every_killed(m) ==> first_alive(m) is None,
{
    let p = |b: Basket| b.status != BasketStatus::Killed;
    let live = m.dom().filter(|k: u128| p(m[k]));
    let fit = Fit::Alive.test();
    if every_killed(m) {
        assert(live =~= Set::empty());
        if m.dom().len() == 0 {
            m.dom().lemma_len0_is_empty();
        }
    } else if m.dom().len() > 0 {
        if m.dom() == Set::<u128>::empty() {
        }
        let k = choose|k: u128|
            #![trigger m.dom().contains(k)]
            m.dom().contains(k) && m[k].status != BasketStatus::Killed;
        assert(live.contains(k));
        vstd::set::axiom_set_contains_len(live, k);
    }
    lemma_lowest_is(m, fit);
}

/// A killed basket never receives an entry: neither the next active basket nor
/// a basket that is picked for its room, on any side or on one, is a killed
/// one, and the one that is picked has room for the entry.
pub proof fn killed_baskets_get_no_entry(m: Map<u128, Basket>, side: BasketSide, qty: i64)
    ensures
        first_alive(m) matches Some(k) ==> alive(m, k),
        first_roomy(m, qty) matches Some(k) ==> alive(m, k) && m[k].open_qty + qty <= m[k].max_qty,
        first_taking(m, side, qty) matches Some(k) ==> alive(m, k) && m[k].side == side
            && m[k].open_qty + qty <= m[k].max_qty,
{
    lemma_lowest_is(m, Fit::Alive.test());
    lemma_lowest_is(m, (Fit::Room { qty }).test());
    lemma_lowest_is(m, (Fit::RoomOn { side, qty }).test());
}

impl BasketManager {
    /// The baskets by identifier.
    pub open spec fn book(&self) -> Map<u128, Basket> {
        baskets_in(self.baskets)
    }

    /// The basket that each linked order belongs to.
    pub open spec fn links(&self) -> Map<u128, u128> {
        links_in(self.order_to_basket)
    }

    /// The book is in order.
    pub open spec fn wf(&self) -> bool {
        book_wf(self.book())
    }

    /// The active basket, while it may trade.
    pub open spec fn active(&self) -> Option<u128> {
        match self.active_basket_id {
            Some(id) => if alive(self.book(), id) {
                Some(id)
            } else {
                None
            },
            None => None,
        }
    }

    /// A manager with as many untraded baskets as configured, under random
    /// identifiers.
    pub fn new(config: BasketConfig, is_inverse: bool, tp_spread: i64) -> (r: Self)
        ensures
            r.wf(),
            exists|ids: Seq<u128>|
                {
                    &&& #[trigger] ids.len() == config.num_baskets
                    &&& forall|i: int|
                        0 <= i < ids.len() ==> crate::ids::is_random_id(#[trigger] ids[i])
                    &&& r.book() == seeded(ids, config.basket_size_qty, is_inverse, tp_spread)
                },
            r.links() == Map::<u128, u128>::empty(),
            r.config == config,
            r.active_basket_id is None,
    {
        let mut ids: Vec<u128> = Vec::new();
        let mut i: u32 = 0;
        while i < config.num_baskets
            invariant
                i <= config.num_baskets,
                ids@.len() == i,
                forall|j: int| 0 <= j < i ==> crate::ids::is_random_id(#[trigger] ids@[j]),
            decreases config.num_baskets - i,
        {
            ids.push(crate::ids::fresh_id());
            i += 1;
        }
        Self::with_ids(config, &ids, is_inverse, tp_spread)
    }

    /// A manager with one untraded basket per identifier.
    pub fn with_ids(
        config: BasketConfig,
        ids: &Vec<u128>,
        is_inverse: bool,
        tp_spread: i64,
    ) -> (r: Self)
        requires
            ids@.len() <= u32::MAX,
        ensures
            r.wf(),
            r.book() == seeded(ids@, config.basket_size_qty, is_inverse, tp_spread),
            r.links() == Map::<u128, u128>::empty(),
            r.config == config,
            r.active_basket_id is None,
    {
        let mut baskets: BasketTable = baskets_new();
        assert(baskets_in(baskets) =~= Map::<u128, Basket>::empty());
        let mut i: usize = 0;
        while i < ids.len()
            invariant
                i <= ids@.len() <= u32::MAX,
                baskets_in(baskets) == seeded(
                    ids@.take(i as int),
                    config.basket_size_qty,
                    is_inverse,
                    tp_spread,
                ),
            decreases ids@.len() - i,
        {
            let b: Basket = Basket::with_id(
                ids[i],
                i as u32,
                if i % 2 == 0 {
                    BasketSide::Long
                } else {
                    BasketSide::Short
                },
                config.basket_size_qty,
                is_inverse,
                tp_spread,
            );
            proof {
                assert(ids@.take(i + 1).drop_last() =~= ids@.take(i as int));
                assert(ids@.take(i + 1).last() == ids@[i as int]);
            }
            let _ = baskets_insert(&mut baskets, ids[i], b);
            i += 1;
        }
        proof {
            assert(ids@.take(ids@.len() as int) =~= ids@);
            lemma_seeded(ids@, config.basket_size_qty, is_inverse, tp_spread);
        }
        let order_to_basket: LinkTable = links_new();
        assert(links_in(order_to_basket) =~= Map::<u128, u128>::empty());
        BasketManager { baskets, order_to_basket, config, active_basket_id: None }
    }

    /// The basket under an identifier.
    pub fn get(&self, basket_id: u128) -> (r: Option<Basket>)
        ensures
            r == entry(self.book(), basket_id),
    {
        baskets_get(&self.baskets, basket_id)
    }

    /// Stores a basket under its identifier.
    pub fn put(&mut self, b: Basket)
        ensures
            final(self).book() == old(self).book().insert(b.basket_id, b),
            final(self).links() == old(self).links(),
            final(self).config == old(self).config,
            final(self).active_basket_id == old(self).active_basket_id,
    {
        let _ = baskets_insert(&mut self.baskets, b.basket_id, b);
    }

    /// Every basket with its identifier, in no particular order.
    pub fn listing(&self) -> (r: Vec<(u128, Basket)>)
        ensures
            walks(r@, self.book()),
    {
        baskets_walk(&self.baskets)
    }

    /// How many baskets there are.
    pub fn len(&self) -> (r: usize)
        ensures
            r == self.book().dom().len(),
    {
        self.listing().len()
    }

    /// Every basket, by rising index.
    pub fn all(&self) -> (r: Vec<Basket>)
        requires
            self.wf(),
        ensures
            lists_book(r@, self.book()),
    {
        let listing: Vec<(u128, Basket)> = self.listing();
        let ghost m = self.book();
        let mut out: Vec<Basket> = Vec::new();
        let mut n: usize = 0;
        while n < listing.len()
            invariant
                n <= listing@.len(),
                walks(listing@, m),
                book_wf(m),
                out@.len() == n,
                forall|i: int|
                    0 <= i < n ==> entry(m, (#[trigger] out@[i]).basket_id) == Some(out@[i]),
                forall|i: int|
                    0 <= i < n ==> exists|x: int|
                        0 <= x < n && (#[trigger] out@[i]) == (#[trigger] listing@[x]).1,
                forall|x: int| 0 <= x < n ==> out@.contains((#[trigger] listing@[x]).1),
                forall|i: int, j: int|
                    0 <= i < j < n ==> (#[trigger] out@[i]).index < (#[trigger] out@[j]).index,
            decreases listing@.len() - n,
        {
            let b: Basket = listing[n].1;
            let mut at: usize = out.len();
            while at > 0 && out[at - 1].index > b.index
                invariant
                    at <= out@.len(),
                    out@.len() == n,
                    forall|i: int|
                        at <= i < out@.len() ==> (#[trigger] out@[i]).index > b.index,
                decreases at,
            {
                at -= 1;
            }
            proof {
                assert(m.dom().contains(listing@[n as int].0));
                assert forall|i: int| 0 <= i < at implies (#[trigger] out@[i]).index < b.index by {
                    assert(out@[at - 1].index <= b.index);
                    if i < at - 1 {
                        assert(out@[i].index < out@[at - 1].index);
                    }
                    if out@[i].index == b.index {
                        let x = choose|x: int|
                            0 <= x < n && out@[i] == (#[trigger] listing@[x]).1;
                        assert(m.dom().contains(listing@[x].0));
                        assert(listing@[x].0 == listing@[n as int].0);
                    }
                }
            }
            let ghost before = out@;
            out.insert(at, b);
            proof {
                let after = out@;
                assert(after =~= before.insert(at as int, b));
                assert forall|i: int| 0 <= i < n + 1 implies exists|x: int|
                    0 <= x < n + 1 && (#[trigger] after[i]) == (#[trigger] listing@[x]).1 by {
                    if i < at {
                        assert(after[i] == before[i]);
                        let x = choose|x: int|
                            0 <= x < n && before[i] == (#[trigger] listing@[x]).1;
                        assert(after[i] == listing@[x].1);
                    } else if i > at {
                        assert(after[i] == before[i - 1]);
                        let x = choose|x: int|
                            0 <= x < n && before[i - 1] == (#[trigger] listing@[x]).1;
                        assert(after[i] == listing@[x].1);
                    } else {
                        assert(after[i] == listing@[n as int].1);
                    }
                }
                assert forall|x: int| 0 <= x < n + 1 implies after.contains(
                    (#[trigger] listing@[x]).1,
                ) by {
                    if x < n {
                        let i = choose|i: int|
                            0 <= i < before.len() && before[i] == listing@[x].1;
                        if i < at {
                            assert(after[i] == listing@[x].1);
                        } else {
                            assert(after[i + 1] == listing@[x].1);
                        }
                    } else {
                        assert(after[at as int] == b);
                    }
                }
            }
            n += 1;
        }
        proof {
            assert forall|k: u128| #[trigger] m.dom().contains(k) implies out@.contains(m[k]) by {
                lemma_walk_reaches(listing@, m, k);
                let x = choose|x: int| 0 <= x < listing@.len() && (#[trigger] listing@[x]).0 == k;
                assert(listing@[x].1 == m[k]);
            }
        }
        out
    }

    /// The chosen baskets, in no particular order.
    pub fn select(&self, choice: Choice) -> (r: Vec<Basket>)
        requires
            self.wf(),
        ensures
            chosen(r@, self.book(), choice),
    {
        let listing: Vec<(u128, Basket)> = self.listing();
        let ghost m = self.book();
        let mut out: Vec<Basket> = Vec::new();
        let ghost mut from: Seq<int> = Seq::empty();
        let mut n: usize = 0;
        while n < listing.len()
            invariant
                n <= listing@.len(),
                walks(listing@, m),
                book_wf(m),
                from.len() == out@.len(),
                forall|i: int|
                    #![trigger out@[i]]
                    #![trigger from[i]]
                    0 <= i < out@.len() ==> {
                        &&& 0 <= from[i] < n
                        &&& out@[i] == listing@[from[i]].1
                        &&& entry(m, out@[i].basket_id) == Some(out@[i])
                        &&& choice.takes(out@[i])
                    },
                forall|i: int, j: int| 0 <= i < j < from.len() ==> from[i] < from[j],
                forall|x: int|
                    0 <= x < n && choice.takes((#[trigger] listing@[x]).1) ==> out@.contains(
                        listing@[x].1,
                    ),
            decreases listing@.len() - n,
        {
            let b: Basket = listing[n].1;
            assert(m.dom().contains(listing@[n as int].0));
            let ghost before = out@;
            let fits: bool = match choice {
                Choice::StoppedOut { mid } => b.sl_breached(mid),
                Choice::Holding => b.open_qty > 0,
                Choice::Exposed => b.open_qty != 0,
            };
            if fits {
                out.push(b);
                proof {
                    from = from.push(n as int);
                    assert(out@[before.len() as int] == b);
                }
            }
            proof {
                assert forall|x: int| 0 <= x < n + 1 && choice.takes(
                    (#[trigger] listing@[x]).1,
                ) implies out@.contains(listing@[x].1) by {
                    if x < n {
                        let i = choose|i: int| 0 <= i < before.len() && before[i] == listing@[x].1;
                        assert(out@[i] == before[i]);
                    }
                }
            }
            n += 1;
        }
        proof {
            assert forall|k: u128| #[trigger] m.dom().contains(k) && choice.takes(
                m[k],
            ) implies out@.contains(m[k]) by {
                lemma_walk_reaches(listing@, m, k);
                let x = choose|x: int| 0 <= x < listing@.len() && (#[trigger] listing@[x]).0 == k;
                assert(choice.takes(listing@[x].1));
            }
            assert forall|i: int, j: int| 0 <= i < j < out@.len() implies (
            #[trigger] out@[i]).basket_id != (#[trigger] out@[j]).basket_id by {
                assert(from[i] < from[j]);
                assert(listing@[from[i]].0 != listing@[from[j]].0);
                assert(m.dom().contains(listing@[from[i]].0) && m.dom().contains(
                    listing@[from[j]].0,
                ));
            }
        }
        out
    }

    /// How many baskets may still trade.
    pub fn active_count(&self) -> (r: usize)
        ensures
            r == alive_in(self.book()),
    {
        let killed: usize = self.killed_count();
        proof {
            alive_and_killed_partition(self.book());
        }
        self.len() - killed
    }

    /// How many baskets are killed.
    pub fn killed_count(&self) -> (r: usize)
        ensures
            r == killed_in(self.book()),
            self.book().dom().finite(),
            r <= self.book().dom().len(),
    {
        let listing: Vec<(u128, Basket)> = self.listing();
        let ghost m = self.book();
        let ghost p = |b: Basket| b.status == BasketStatus::Killed;
        let ghost mut seen: Set<u128> = Set::empty();
        let mut n: usize = 0;
        let mut killed: usize = 0;
        while n < listing.len()
            invariant
                n <= listing@.len(),
                walks(listing@, m),
                killed <= n,
                seen.finite(),
                seen.len() == killed,
                p == (|b: Basket| b.status == BasketStatus::Killed),
                forall|k: u128| #[trigger]
                    seen.contains(k) <==> exists|x: int|
                        0 <= x < n && (#[trigger] listing@[x]).0 == k && p(listing@[x].1),
            decreases listing@.len() - n,
        {
            let ghost before = seen;
            if listing[n].1.status == BasketStatus::Killed {
                proof {
                    seen = seen.insert(listing@[n as int].0);
                    assert(!before.contains(listing@[n as int].0));
                }
                killed += 1;
            }
            proof {
                assert forall|k: u128| #[trigger] seen.contains(k) <==> exists|x: int|
                    0 <= x < n + 1 && (#[trigger] listing@[x]).0 == k && p(listing@[x].1) by {
                    if before.contains(k) {
                        let x = choose|x: int|
                            0 <= x < n && (#[trigger] listing@[x]).0 == k && p(listing@[x].1);
                        assert(listing@[x].0 == k);
                    }
                    if seen.contains(k) && !before.contains(k) {
                        assert(listing@[n as int].0 == k);
                    }
                }
            }
            n += 1;
        }
        proof {
            let want = m.dom().filter(|k: u128| p(m[k]));
            assert forall|k: u128| seen.contains(k) <==> want.contains(k) by {
                if want.contains(k) {
                    lemma_walk_reaches(listing@, m, k);
                    let x = choose|x: int|
                        0 <= x < listing@.len() && (#[trigger] listing@[x]).0 == k;
                    assert(p(listing@[x].1));
                }
            }
            assert(seen =~= want);
        }
        killed
    }

    /// The active basket, while it may trade.
    pub fn active_id(&self) -> (r: Option<u128>)
        ensures
            r == self.active(),
    {
        match self.active_basket_id {
            Some(id) => {
                match self.get(id) {
                    Some(b) => {
                        if b.status != BasketStatus::Killed {
                            Some(id)
                        } else {
                            None
                        }
                    },
                    None => None,
                }
            },
            None => None,
        }
    }

    /// The basket of lowest index that fits.
    fn find_lowest(&self, fit: Fit) -> (r: Option<u128>)
        requires
            self.wf(),
        ensures
            r == lowest(self.book(), fit.test()),
    {
        let listing: Vec<(u128, Basket)> = self.listing();
        let ghost m = self.book();
        let ghost p = fit.test();
        let mut best: Option<(u32, u128)> = None;
        let mut n: usize = 0;
        while n < listing.len()
            invariant
                n <= listing@.len(),
                walks(listing@, m),
                book_wf(m),
                p == fit.test(),
                best matches Some(c) ==> m.dom().contains(c.1) && p(m[c.1]) && m[c.1].index == c.0,
                forall|x: int|
                    0 <= x < n && p((#[trigger] listing@[x]).1) ==> best is Some && (best->0).0
                        <= listing@[x].1.index,
            decreases listing@.len() - n,
        {
            let b: Basket = listing[n].1;
            proof {
                assert(m.dom().contains(listing@[n as int].0));
            }
            if fit.admits(&b) {
                let better: bool = match best {
                    Some(c) => b.index < c.0,
                    None => true,
                };
                if better {
                    best = Some((b.index, listing[n].0));
                }
            }
            n += 1;
        }
        proof {
            assert forall|k: u128| #[trigger] m.dom().contains(k) && p(m[k]) implies best is Some
                && (best->0).0 <= m[k].index by {
                lemma_walk_reaches(listing@, m, k);
                let x = choose|x: int| 0 <= x < listing@.len() && (#[trigger] listing@[x]).0 == k;
                assert(p(listing@[x].1));
            }
            if let Some(c) = best {
                assert(is_lowest(m, p, c.1));
                lemma_lowest_unique(m, p, c.1);
            } else {
                lemma_lowest_is(m, p);
            }
        }
        match best {
            Some(c) => Some(c.1),
            None => None,
        }
    }

    /// Makes the basket of lowest index that is not killed the active one.
    /// `None` when there is no such basket.
    pub fn activate_next_idle(&mut self) -> (r: Option<u128>)
        requires
            old(self).wf(),
        ensures
            r == first_alive(old(self).book()),
            final(self).active_basket_id == r,
            final(self).book() == old(self).book(),
            final(self).links() == old(self).links(),
            final(self).config == old(self).config,
    {
        let pick: Option<u128> = self.find_lowest(Fit::Alive);
        self.active_basket_id = pick;
        pick
    }

    /// The basket that should receive a new entry of `qty`: the active one
    /// when it can take it, else the one of lowest index that can, which
    /// becomes active. `None` when no basket can take it; the one of lowest
    /// index that is not killed is then the active one.
    pub fn find_basket_with_capacity(&mut self, qty: i64, _entry_side: Side) -> (r: Option<u128>)
        requires
            old(self).wf(),
        ensures
            final(self).book() == old(self).book(),
            final(self).links() == old(self).links(),
            final(self).config == old(self).config,
            match old(self).active() {
                Some(id) if old(self).book()[id].takes(qty) => {
                    &&& r == Some(id)
                    &&& final(self).active_basket_id == old(self).active_basket_id
                },
                _ => {
                    &&& r == first_roomy(old(self).book(), qty)
                    &&& final(self).active_basket_id == match r {
                        Some(id) => Some(id),
                        None => first_alive(old(self).book()),
                    }
                },
            },
    {
        if let Some(id) = self.active_id() {
            if let Some(b) = self.get(id) {
                if b.has_capacity(qty) {
                    return Some(id);
                }
            }
        }
        let pick: Option<u128> = self.find_lowest(Fit::Room { qty });
        if pick.is_some() {
            self.active_basket_id = pick;
        } else {
            let _ = self.activate_next_idle();
        }
        pick
    }

    /// The basket of lowest index on a side that can take `qty` more.
    pub fn find_basket_with_capacity_by_side(&self, side: BasketSide, qty: i64) -> (r: Option<u128>)
        requires
            self.wf(),
        ensures
            r == first_taking(self.book(), side, qty),
    {
        self.find_lowest(Fit::RoomOn { side, qty })
    }

    /// Records the basket that an order belongs to.
    pub fn link_order(&mut self, order_id: u128, basket_id: u128)
        ensures
            final(self).links() == old(self).links().insert(order_id, basket_id),
            final(self).book() == old(self).book(),
            final(self).config == old(self).config,
            final(self).active_basket_id == old(self).active_basket_id,
    {
        let _ = links_insert(&mut self.order_to_basket, order_id, basket_id);
    }

    /// The basket that an order was linked to.
    pub fn basket_for_order(&self, order_id: u128) -> (r: Option<u128>)
        ensures
            r == entry(self.links(), order_id),
    {
        links_get(&self.order_to_basket, order_id)
    }

    /// The sum of all position sizes.
    pub fn total_open_qty(&self) -> (r: i64)
        ensures
            r == clamp(open_total(self.book())),
    {
        let listing: Vec<(u128, Basket)> = self.listing();
        let ghost f = |b: Basket| b.open_qty as int;
        let mut sum: i128 = 0;
        let mut n: usize = 0;
        while n < listing.len()
            invariant
                n <= listing@.len(),
                f == (|b: Basket| b.open_qty as int),
                sum == listed_total(listing@.take(n as int), f),
                -0x8000_0000_0000_0000 * n <= sum <= 0x8000_0000_0000_0000 * n,
            decreases listing@.len() - n,
        {
            proof {
                assert(listing@.take(n + 1).drop_last() =~= listing@.take(n as int));
                assert(listing@.take(n + 1).last() == listing@[n as int]);
            }
            sum = sum + listing[n].1.open_qty as i128;
            n += 1;
        }
        proof {
            assert(listing@.take(listing@.len() as int) =~= listing@);
            lemma_walk_total(listing@, self.book(), f);
        }
        clamped(sum)
    }

    /// The sum of all realised results.
    pub fn total_realized_pnl(&self) -> (r: i64)
        ensures
            r == clamp(realized_total(self.book())),
    {
        let listing: Vec<(u128, Basket)> = self.listing();
        let ghost f = |b: Basket| b.realized_pnl as int;
        let mut sum: i128 = 0;
        let mut n: usize = 0;
        while n < listing.len()
            invariant
                n <= listing@.len(),
                f == (|b: Basket| b.realized_pnl as int),
                sum == listed_total(listing@.take(n as int), f),
                -0x8000_0000_0000_0000 * n <= sum <= 0x8000_0000_0000_0000 * n,
            decreases listing@.len() - n,
        {
            proof {
                assert(listing@.take(n + 1).drop_last() =~= listing@.take(n as int));
                assert(listing@.take(n + 1).last() == listing@[n as int]);
            }
            sum = sum + listing[n].1.realized_pnl as i128;
            n += 1;
        }
        proof {
            assert(listing@.take(listing@.len() as int) =~= listing@);
            lemma_walk_total(listing@, self.book(), f);
        }
        clamped(sum)
    }

    /// The sum of all positions, long ones positive and short ones negative.
    pub fn net_qty(&self) -> (r: i64)
        ensures
            r == clamp(net_total(self.book())),
    {
        let listing: Vec<(u128, Basket)> = self.listing();
        let ghost f = |b: Basket| b.net();
        let mut sum: i128 = 0;
        let mut n: usize = 0;
        while n < listing.len()
            invariant
                n <= listing@.len(),
                f == (|b: Basket| b.net()),
                sum == listed_total(listing@.take(n as int), f),
                -0x8000_0000_0000_0000 * n <= sum <= 0x8000_0000_0000_0000 * n,
            decreases listing@.len() - n,
        {
            proof {
                assert(listing@.take(n + 1).drop_last() =~= listing@.take(n as int));
                assert(listing@.take(n + 1).last() == listing@[n as int]);
            }
            let b: Basket = listing[n].1;
            sum = match b.side {
                BasketSide::Long => sum + b.open_qty as i128,
                BasketSide::Short => sum - b.open_qty as i128,
            };
            n += 1;
        }
        proof {
            assert(listing@.take(listing@.len() as int) =~= listing@);
            lemma_walk_total(listing@, self.book(), f);
        }
        clamped(sum)
    }

    /// Kills every basket, and leaves positions and results as they are.
    pub fn mark_all_killed(&mut self)
        ensures
            final(self).book() == all_marked_killed(old(self).book()),
            old(self).wf() ==> final(self).wf(),
            final(self).links() == old(self).links(),
            final(self).config == old(self).config,
            final(self).active_basket_id == old(self).active_basket_id,
    {
        let listing: Vec<(u128, Basket)> = self.listing();
        let ghost m = self.book();
        let mut n: usize = 0;
        while n < listing.len()
            invariant
                n <= listing@.len(),
                walks(listing@, m),
                self.book().dom() =~= m.dom(),
                forall|x: int|
                    0 <= x < n ==> self.book()[(#[trigger] listing@[x]).0] == (Basket {
                        status: BasketStatus::Killed,
                        ..listing@[x].1
                    }),
                self.links() == old(self).links(),
                self.config == old(self).config,
                self.active_basket_id == old(self).active_basket_id,
            decreases listing@.len() - n,
        {
            let mut b: Basket = listing[n].1;
            b.status = BasketStatus::Killed;
            let _ = baskets_insert(&mut self.baskets, listing[n].0, b);
            n += 1;
        }
        proof {
            let done = all_marked_killed(m);
            assert forall|k: u128| #[trigger] m.dom().contains(k) implies self.book()[k]
                == done[k] by {
                lemma_walk_reaches(listing@, m, k);
                let x = choose|x: int| 0 <= x < listing@.len() && (#[trigger] listing@[x]).0 == k;
                assert(listing@[x].1 == m[k]);
            }
            assert(self.book() =~= done);
        }
    }

    /// Closes every basket that is not killed at a price and resets it.
    pub fn reset_all(&mut self, price: i64)
        ensures
            final(self).book() == all_reset(old(self).book(), price),
            old(self).wf() ==> final(self).wf(),
            final(self).links() == old(self).links(),
            final(self).config == old(self).config,
            final(self).active_basket_id == old(self).active_basket_id,
    {
        let listing: Vec<(u128, Basket)> = self.listing();
        let ghost m = self.book();
        let ghost done = all_reset(m, price);
        let mut n: usize = 0;
        while n < listing.len()
            invariant
                n <= listing@.len(),
                walks(listing@, m),
                done == all_reset(m, price),
                self.book().dom() =~= m.dom(),
                forall|x: int|
                    0 <= x < n ==> self.book()[(#[trigger] listing@[x]).0] == done[listing@[x].0],
                forall|x: int|
                    n <= x < listing@.len() ==> self.book()[(#[trigger] listing@[x]).0]
                        == listing@[x].1,
                self.links() == old(self).links(),
                self.config == old(self).config,
                self.active_basket_id == old(self).active_basket_id,
            decreases listing@.len() - n,
        {
            assert(m.dom().contains(listing@[n as int].0));
            if listing[n].1.status != BasketStatus::Killed {
                let mut b: Basket = listing[n].1;
                b.soft_reset(price);
                let _ = baskets_insert(&mut self.baskets, listing[n].0, b);
            }
            n += 1;
        }
        proof {
            assert forall|k: u128| #[trigger] m.dom().contains(k) implies self.book()[k]
                == done[k] by {
                lemma_walk_reaches(listing@, m, k);
                let x = choose|x: int| 0 <= x < listing@.len() && (#[trigger] listing@[x]).0 == k;
                assert(self.book()[listing@[x].0] == done[k]);
            }
            assert(self.book() =~= done);
        }
    }

    /// There are baskets, and every one of them is killed.
    pub fn all_killed(&self) -> (r: bool)
        ensures
            r == every_killed(self.book()),
    {
        let listing: Vec<(u128, Basket)> = self.listing();
        let ghost m = self.book();
        if listing.len() == 0 {
            proof {
                m.dom().lemma_len0_is_empty();
            }
            return false;
        }
        let mut n: usize = 0;
        while n < listing.len()
            invariant
                n <= listing@.len(),
                walks(listing@, m),
                m == self.book(),
                forall|x: int|
                    0 <= x < n ==> (#[trigger] listing@[x]).1.status == BasketStatus::Killed,
            decreases listing@.len() - n,
        {
            if listing[n].1.status != BasketStatus::Killed {
                assert(m.dom().contains(listing@[n as int].0));
                return false;
            }
            n += 1;
        }
        proof {
            assert(m.dom().contains(listing@[0].0));
            assert forall|k: u128| #[trigger] m.dom().contains(k) implies m[k].status
                == BasketStatus::Killed by {
                lemma_walk_reaches(listing@, m, k);
                let x = choose|x: int| 0 <= x < listing@.len() && (#[trigger] listing@[x]).0 == k;
                assert(listing@[x].1 == m[k]);
            }
        }
        true
    }
}

} // verus!
