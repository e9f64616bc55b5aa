//! The ordered price-level backend: each side is a price-sorted vector of
//! levels, a level being the FIFO queue of resting orders at one price.
//! Matching walks the best level of each side while the best bid price is at
//! least the best ask price, consuming one resting order per side per match.

use vstd::prelude::*;

use std::collections::VecDeque;

use crate::order::{Order, OrderSide, SymbolId};
use crate::order_book::OrderBookType;
use crate::order_book_trait::{OrderBookError, OrderBookTrait};
use crate::symbol_index::SymbolIndex;

verus! {

/// The total quantity resting in a sequence of orders.
pub open spec fn quantity_sum(s: Seq<Order>) -> int
    decreases s.len(),
{
    if s.len() == 0 {
        0
    } else {
        s[0].quantity + quantity_sum(s.drop_first())
    }
}

proof fn lemma_quantity_sum_push(s: Seq<Order>, o: Order)
    ensures
        quantity_sum(s.push(o)) == quantity_sum(s) + o.quantity,
    decreases s.len(),
{
    if s.len() == 0 {
        assert(s.push(o).drop_first() =~= Seq::<Order>::empty());
        assert(s.push(o)[0] == o);
        reveal_with_fuel(quantity_sum, 2);
    } else {
        assert(s.push(o).drop_first() =~= s.drop_first().push(o));
        lemma_quantity_sum_push(s.drop_first(), o);
    }
}

proof fn lemma_quantity_sum_bounds(s: Seq<Order>)
    ensures
        0 <= quantity_sum(s) <= s.len() * (u64::MAX as int),
    decreases s.len(),
{
    if s.len() == 0 {
    } else {
        lemma_quantity_sum_bounds(s.drop_first());
        assert((s.len() - 1) * (u64::MAX as int) + (u64::MAX as int) == s.len() * (
        u64::MAX as int)) by (nonlinear_arith);
    }
}

/// One price level: the FIFO queue of resting orders at a single price,
/// with a cached order count and total resting quantity.
pub struct PriceLevel {
    pub orders: VecDeque<Order>,
    pub count: usize,
    pub total_quantity: u128,
}

impl PriceLevel {
    /// The cached aggregates agree with the queue.
    pub open spec fn wf(self) -> bool {
        &&& self.count == self.orders@.len()
        &&& self.total_quantity == quantity_sum(self.orders@)
    }

    /// An empty level.
    pub fn new() -> (level: Self)
        ensures
            level.wf(),
            level.orders@ == Seq::<Order>::empty(),
    {
        PriceLevel { orders: VecDeque::with_capacity(128), count: 0, total_quantity: 0 }
    }

    /// Whether no order rests at this level, read off the cached count.
    pub fn is_empty(&self) -> (r: bool)
        requires
            self.wf(),
        ensures
            r == (self.orders@.len() == 0),
    {
        self.count == 0
    }

    /// Appends an order at the back of the FIFO.
    pub fn push_back(&mut self, order: Order)
        requires
            old(self).wf(),
        ensures
            final(self).wf(),
            final(self).orders@ == old(self).orders@.push(order),
    {
        proof {
            lemma_quantity_sum_bounds(self.orders@);
            lemma_quantity_sum_push(self.orders@, order);
            assert(self.orders@.len() * (u64::MAX as int) + (u64::MAX as int) <= (
            self.orders@.len() + 1) * (u64::MAX as int)) by (nonlinear_arith);
            assert((self.orders@.len() + 1) * (u64::MAX as int) < u128::MAX) by (nonlinear_arith)
                requires
                    self.orders@.len() <= usize::MAX,
            ;
        }
        self.total_quantity = self.total_quantity + (order.quantity as u128);
        self.orders.push_back(order);
        let n = self.orders.len();
        self.count = n;
    }

    /// Removes and returns the order at the front of the FIFO, if any.
    pub fn pop_front(&mut self) -> (r: Option<Order>)
        requires
            old(self).wf(),
        ensures
            final(self).wf(),
            old(self).orders@.len() == 0 ==> r is None && final(self).orders@ == old(
                self,
            ).orders@,
            old(self).orders@.len() > 0 ==> r == Some(old(self).orders@[0])
                && final(self).orders@ == old(self).orders@.drop_first(),
    {
        match self.orders.pop_front() {
            Some(order) => {
                proof {
                    lemma_quantity_sum_bounds(self.orders@);
                    assert(old(self).orders@.drop_first() =~= old(self).orders@.subrange(
                        1,
                        old(self).orders@.len() as int,
                    ));
                }
                self.total_quantity = self.total_quantity - (order.quantity as u128);
                self.count = self.count - 1;
                Some(order)
            },
            None => None,
        }
    }
}

/// The spec-level picture of one side of the book: each entry pairs a price
/// with the FIFO of orders resting at that price, ordered by ascending price.
pub type SideLevels = Seq<(u64, Seq<Order>)>;

/// The spec-level picture of a vector of price levels.
pub open spec fn levels_of(v: Seq<(u64, PriceLevel)>) -> SideLevels {
    v.map_values(|e: (u64, PriceLevel)| (e.0, e.1.orders@))
}

/// Well-formedness of one side: prices strictly ascending, no empty level,
/// and every order resting under its own price on the given side.
pub open spec fn side_wf(m: SideLevels, side: OrderSide) -> bool {
    &&& forall|i: int, j: int| 0 <= i < j < m.len() ==> (#[trigger] m[i]).0 < (#[trigger] m[j]).0
    &&& forall|i: int| 0 <= i < m.len() ==> (#[trigger] m[i]).1.len() > 0
    &&& forall|i: int, k: int|
        0 <= i < m.len() && 0 <= k < m[i].1.len() ==> (#[trigger] m[i].1[k]).price == m[i].0
            && m[i].1[k].order_type == side
}

/// The best (highest) bid price on a side ordered by ascending price.
pub open spec fn best_bid_of(m: SideLevels) -> Option<u64> {
    if m.len() == 0 {
        None
    } else {
        Some(m.last().0)
    }
}

/// The best (lowest) ask price on a side ordered by ascending price.
pub open spec fn best_ask_of(m: SideLevels) -> Option<u64> {
    if m.len() == 0 {
        None
    } else {
        Some(m[0].0)
    }
}

/// A cross exists: both sides rest orders and the best bid price is at least
/// the best ask price.
pub open spec fn levels_cross(bids: SideLevels, asks: SideLevels) -> bool {
    bids.len() > 0 && asks.len() > 0 && bids.last().0 >= asks[0].0
}

/// A side after an order is filed under its price: the order joins the back
/// of its price's FIFO, a new level being opened at the sorted position if
/// the price is new.
pub open spec fn side_add(m: SideLevels, o: Order) -> SideLevels
    decreases m.len(),
{
    if m.len() == 0 {
        seq![(o.price, seq![o])]
    } else if m[0].0 < o.price {
        seq![m[0]] + side_add(m.drop_first(), o)
    } else if m[0].0 == o.price {
        seq![(m[0].0, m[0].1.push(o))] + m.drop_first()
    } else {
        seq![(o.price, seq![o])] + m
    }
}

/// A side after its best bid level gives up its front order; the level is
/// dropped once exhausted.
pub open spec fn pop_best_bid(m: SideLevels) -> SideLevels
    recommends
        m.len() > 0,
{
    if m.last().1.len() <= 1 {
        m.drop_last()
    } else {
        m.update(m.len() - 1, (m.last().0, m.last().1.drop_first()))
    }
}

/// A side after its best ask level gives up its front order; the level is
/// dropped once exhausted.
pub open spec fn pop_best_ask(m: SideLevels) -> SideLevels
    recommends
        m.len() > 0,
{
    if m[0].1.len() <= 1 {
        m.drop_first()
    } else {
        m.update(0, (m[0].0, m[0].1.drop_first()))
    }
}

/// How many orders rest on a side.
pub open spec fn side_order_count(m: SideLevels) -> nat
    decreases m.len(),
{
    if m.len() == 0 {
        0
    } else {
        m[0].1.len() + side_order_count(m.drop_first())
    }
}

/// Both sides after matching runs to quiescence (or the fuel runs out):
/// while the sides cross, the front order of the best bid level and the
/// front order of the best ask level are consumed, one pair per step.
pub open spec fn levels_match(bids: SideLevels, asks: SideLevels, fuel: nat) -> (
    SideLevels,
    SideLevels,
)
    decreases fuel,
{
    if fuel > 0 && levels_cross(bids, asks) {
        levels_match(pop_best_bid(bids), pop_best_ask(asks), (fuel - 1) as nat)
    } else {
        (bids, asks)
    }
}

/// The pairs consumed by `levels_match`, best bid order with best ask order,
/// in matching order.
pub open spec fn matched_pairs(bids: SideLevels, asks: SideLevels, fuel: nat) -> Seq<
    (Order, Order),
>
    decreases fuel,
{
    if fuel > 0 && levels_cross(bids, asks) {
        seq![(bids.last().1[0], asks[0].1[0])] + matched_pairs(
            pop_best_bid(bids),
            pop_best_ask(asks),
            (fuel - 1) as nat,
        )
    } else {
        Seq::empty()
    }
}

/// Every level's cached aggregates agree with its queue.
pub open spec fn all_levels_wf(v: Seq<(u64, PriceLevel)>) -> bool {
    forall|i: int| 0 <= i < v.len() ==> (#[trigger] v[i]).1.wf()
}

/// Relates `side_add` to the insertion position a linear scan finds: at the
/// first index whose price is not below the order's, the order either joins
/// the level of its price or opens a new level there.
proof fn lemma_side_add_at(m: SideLevels, o: Order, i: int)
    requires
        forall|p: int, q: int| 0 <= p < q < m.len() ==> (#[trigger] m[p]).0 < (#[trigger] m[q]).0,
        0 <= i <= m.len(),
        forall|j: int| 0 <= j < i ==> (#[trigger] m[j]).0 < o.price,
        i < m.len() ==> m[i].0 >= o.price,
    ensures
        i < m.len() && m[i].0 == o.price ==> side_add(m, o) == m.update(
            i,
            (o.price, m[i].1.push(o)),
        ),
        (i == m.len() || m[i].0 > o.price) ==> side_add(m, o) == m.subrange(0, i) + seq![
            (o.price, seq![o]),
        ] + m.subrange(i, m.len() as int),
    decreases m.len(),
{
    if i == 0 {
        if m.len() == 0 {
            assert(side_add(m, o) =~= m.subrange(0, 0) + seq![(o.price, seq![o])] + m.subrange(
                0,
                0,
            ));
        } else if m[0].0 == o.price {
            assert(side_add(m, o) =~= m.update(0, (o.price, m[0].1.push(o))));
        } else {
            assert(m[0].0 > o.price);
            assert(side_add(m, o) =~= m.subrange(0, 0) + seq![(o.price, seq![o])] + m.subrange(
                0,
                m.len() as int,
            ));
        }
    } else {
        assert(m[0].0 < o.price);
        let rest = m.drop_first();
        lemma_side_add_at(rest, o, i - 1);
        assert(side_add(m, o) == seq![m[0]] + side_add(rest, o));
        if i < m.len() && m[i].0 == o.price {
            assert(rest[i - 1] == m[i]);
            assert(seq![m[0]] + rest.update(i - 1, (o.price, rest[i - 1].1.push(o))) =~= m.update(
                i,
                (o.price, m[i].1.push(o)),
            ));
        } else {
            assert(seq![m[0]] + (rest.subrange(0, i - 1) + seq![(o.price, seq![o])] + rest.subrange(
                i - 1,
                rest.len() as int,
            )) =~= m.subrange(0, i) + seq![(o.price, seq![o])] + m.subrange(i, m.len() as int));
        }
    }
}

/// Files an order under its price on one side, opening a new level at the
/// sorted position if the price is new.
fn insert_into_side(levels: &mut Vec<(u64, PriceLevel)>, order: Order)
    requires
        side_wf(levels_of(old(levels)@), order.order_type),
        all_levels_wf(old(levels)@),
    ensures
        side_wf(levels_of(final(levels)@), order.order_type),
        all_levels_wf(final(levels)@),
        levels_of(final(levels)@) == side_add(levels_of(old(levels)@), order),
{
    let ghost m0 = levels_of(levels@);
    let mut i: usize = 0;
    while i < levels.len() && levels[i].0 < order.price
        invariant
            0 <= i <= levels@.len(),
            forall|j: int| 0 <= j < i ==> (#[trigger] levels@[j]).0 < order.price,
            *levels == *old(levels),
        decreases levels@.len() - i,
    {
        i = i + 1;
    }
    proof {
        lemma_side_add_at(m0, order, i as int);
    }
    if i < levels.len() && levels[i].0 == order.price {
        let p = &mut levels[i];
        p.1.push_back(order);
        proof {
            assert(levels_of(levels@) =~= m0.update(
                i as int,
                (order.price, m0[i as int].1.push(order)),
            ));
        }
    } else {
        let mut level = PriceLevel::new();
        level.push_back(order);
        levels.insert(i, (order.price, level));
        proof {
            assert(levels_of(levels@) =~= m0.subrange(0, i as int) + seq![
                (order.price, seq![order]),
            ] + m0.subrange(i as int, m0.len() as int));
        }
    }
}

/// The per-symbol matcher of the ordered price-level backend: one sorted
/// level vector per side.
pub struct HashMapMatcher {
    pub bid_levels: Vec<(u64, PriceLevel)>,
    pub ask_levels: Vec<(u64, PriceLevel)>,
}

impl HashMapMatcher {
    /// The bid side as price-to-FIFO entries, ascending by price.
    pub open spec fn bids(self) -> SideLevels {
        levels_of(self.bid_levels@)
    }

    /// The ask side as price-to-FIFO entries, ascending by price.
    pub open spec fn asks(self) -> SideLevels {
        levels_of(self.ask_levels@)
    }

    /// Both sides are well-formed for their respective side.
    pub open spec fn wf(self) -> bool {
        &&& side_wf(self.bids(), OrderSide::Buy)
        &&& side_wf(self.asks(), OrderSide::Sell)
        &&& all_levels_wf(self.bid_levels@)
        &&& all_levels_wf(self.ask_levels@)
    }

    /// An empty matcher.
    pub fn new() -> (m: Self)
        ensures
            m.wf(),
            m.bids() == Seq::<(u64, Seq<Order>)>::empty(),
            m.asks() == Seq::<(u64, Seq<Order>)>::empty(),
    {
        let m = HashMapMatcher { bid_levels: Vec::new(), ask_levels: Vec::new() };
        proof {
            assert(m.bids() =~= Seq::<(u64, Seq<Order>)>::empty());
            assert(m.asks() =~= Seq::<(u64, Seq<Order>)>::empty());
        }
        m
    }

    /// Files the order at the back of its price level on its side.
    pub fn add_order(&mut self, order: Order)
        requires
            old(self).wf(),
        ensures
            final(self).wf(),
            order.is_buy() ==> final(self).bids() == side_add(old(self).bids(), order)
                && final(self).asks() == old(self).asks(),
            order.is_sell() ==> final(self).asks() == side_add(old(self).asks(), order)
                && final(self).bids() == old(self).bids(),
    {
        match order.order_type {
            OrderSide::Buy => insert_into_side(&mut self.bid_levels, order),
            OrderSide::Sell => insert_into_side(&mut self.ask_levels, order),
        }
    }

    /// The highest bid price carrying resting orders, if any.
    pub fn get_best_bid(&self) -> (r: Option<u64>)
        requires
            self.wf(),
        ensures
            r == best_bid_of(self.bids()),
    {
        let n = self.bid_levels.len();
        if n == 0 {
            None
        } else {
            Some(self.bid_levels[n - 1].0)
        }
    }

    /// The lowest ask price carrying resting orders, if any.
    pub fn get_best_ask(&self) -> (r: Option<u64>)
        requires
            self.wf(),
        ensures
            r == best_ask_of(self.asks()),
    {
        if self.ask_levels.len() == 0 {
            None
        } else {
            Some(self.ask_levels[0].0)
        }
    }

    /// Both best prices, bid side first.
    pub fn get_best_prices(&self) -> (r: (Option<u64>, Option<u64>))
        requires
            self.wf(),
        ensures
            r == (best_bid_of(self.bids()), best_ask_of(self.asks())),
    {
        (self.get_best_bid(), self.get_best_ask())
    }

    /// Whether the best bid price is at least the best ask price.
    pub fn can_match(&self) -> (r: bool)
        requires
            self.wf(),
        ensures
            r == levels_cross(self.bids(), self.asks()),
    {
        match (self.get_best_bid(), self.get_best_ask()) {
            (Some(bid), Some(ask)) => bid >= ask,
            _ => false,
        }
    }
}

proof fn lemma_side_count_drop_last(m: SideLevels)
    requires
        m.len() > 0,
    ensures
        side_order_count(m) == side_order_count(m.drop_last()) + m.last().1.len(),
    decreases m.len(),
{
    if m.len() == 1 {
        assert(m.drop_last() =~= Seq::<(u64, Seq<Order>)>::empty());
        reveal_with_fuel(side_order_count, 3);
    } else {
        assert(m.drop_last().drop_first() =~= m.drop_first().drop_last());
        assert(m.drop_last()[0] == m[0]);
        assert(m.drop_first().last() == m.last());
        lemma_side_count_drop_last(m.drop_first());
    }
}

proof fn lemma_side_count_update(m: SideLevels, i: int, e: (u64, Seq<Order>))
    requires
        0 <= i < m.len(),
    ensures
        side_order_count(m.update(i, e)) == side_order_count(m) - m[i].1.len() + e.1.len(),
    decreases m.len(),
{
    if i == 0 {
        assert(m.update(0, e).drop_first() =~= m.drop_first());
    } else {
        assert(m.update(i, e).drop_first() =~= m.drop_first().update(i - 1, e));
        assert(m.update(i, e)[0] == m[0]);
        lemma_side_count_update(m.drop_first(), i - 1, e);
    }
}

/// Consuming the front order of the best bid level keeps the side
/// well-formed and removes exactly one resting order.
proof fn lemma_pop_best_bid_wf(m: SideLevels, side: OrderSide)
    requires
        side_wf(m, side),
        m.len() > 0,
    ensures
        side_wf(pop_best_bid(m), side),
        side_order_count(pop_best_bid(m)) == side_order_count(m) - 1,
{
    let n = m.len() as int;
    if m.last().1.len() <= 1 {
        lemma_side_count_drop_last(m);
    } else {
        lemma_side_count_update(m, n - 1, (m.last().0, m.last().1.drop_first()));
    }
}

/// Consuming the front order of the best ask level keeps the side
/// well-formed and removes exactly one resting order.
proof fn lemma_pop_best_ask_wf(m: SideLevels, side: OrderSide)
    requires
        side_wf(m, side),
        m.len() > 0,
    ensures
        side_wf(pop_best_ask(m), side),
        side_order_count(pop_best_ask(m)) == side_order_count(m) - 1,
{
    if m[0].1.len() <= 1 {
    } else {
        lemma_side_count_update(m, 0, (m[0].0, m[0].1.drop_first()));
    }
}

impl HashMapMatcher {
    /// One matching pass, run to quiescence: while the best bid price is at
    /// least the best ask price, the front order of the best bid level and
    /// the front order of the best ask level are consumed, one pair per
    /// step; afterwards no cross remains.
    pub fn match_orders(&mut self)
        requires
            old(self).wf(),
        ensures
            final(self).wf(),
            (final(self).bids(), final(self).asks()) == levels_match(
                old(self).bids(),
                old(self).asks(),
                side_order_count(old(self).bids()) + side_order_count(old(self).asks()),
            ),
            !levels_cross(final(self).bids(), final(self).asks()),
    {
        let ghost b0 = self.bids();
        let ghost a0 = self.asks();
        let ghost total0: nat = side_order_count(b0) + side_order_count(a0);
        let ghost mut fuel: nat = total0;
        loop
            invariant
                self.wf(),
                2 * fuel >= side_order_count(self.bids()) + side_order_count(self.asks()),
                levels_match(b0, a0, total0) == levels_match(self.bids(), self.asks(), fuel),
            ensures
                self.wf(),
                (self.bids(), self.asks()) == levels_match(b0, a0, total0),
                !levels_cross(self.bids(), self.asks()),
            decreases fuel,
        {
            let can_match = match (self.get_best_bid(), self.get_best_ask()) {
                (Some(bid_price), Some(ask_price)) => bid_price >= ask_price,
                _ => false,
            };
            if !can_match {
                break;
            }
            let ghost bids_pre = self.bids();
            let ghost asks_pre = self.asks();
            proof {
                lemma_pop_best_bid_wf(bids_pre, OrderSide::Buy);
                lemma_pop_best_ask_wf(asks_pre, OrderSide::Sell);
            }
            let nb = self.bid_levels.len();
            let bid_level = &mut self.bid_levels[nb - 1];
            let bid_order = bid_level.1.pop_front();
            let bid_exhausted = {
                let level = &self.bid_levels[nb - 1];
                level.1.is_empty()
            };
            if bid_exhausted {
                self.bid_levels.pop();
            }
            proof {
                assert(self.bids() =~= pop_best_bid(bids_pre));
                assert(self.asks() =~= asks_pre);
            }
            let ask_level = &mut self.ask_levels[0];
            let ask_order = ask_level.1.pop_front();
            let ask_exhausted = {
                let level = &self.ask_levels[0];
                level.1.is_empty()
            };
            if ask_exhausted {
                self.ask_levels.remove(0);
            }
            proof {
                assert(self.asks() =~= pop_best_ask(asks_pre));
                assert(self.bids() =~= pop_best_bid(bids_pre));
                fuel = (fuel - 1) as nat;
            }
        }
    }
}

/// The FIFO of orders resting at a given price on a side, empty if the side
/// has no level at that price.
pub open spec fn level_orders(m: SideLevels, price: u64) -> Seq<Order>
    decreases m.len(),
{
    if m.len() == 0 {
        Seq::empty()
    } else if m[0].0 == price {
        m[0].1
    } else {
        level_orders(m.drop_first(), price)
    }
}

proof fn lemma_level_orders_absent(m: SideLevels, price: u64)
    requires
        forall|i: int| 0 <= i < m.len() ==> (#[trigger] m[i]).0 != price,
    ensures
        level_orders(m, price) == Seq::<Order>::empty(),
    decreases m.len(),
{
    if m.len() > 0 {
        lemma_level_orders_absent(m.drop_first(), price);
    }
}

/// Every pair consumed by a matching pass crosses: the bid order's price is
/// at least the ask order's price.
pub proof fn lemma_matched_pairs_cross(bids: SideLevels, asks: SideLevels, fuel: nat)
    requires
        side_wf(bids, OrderSide::Buy),
        side_wf(asks, OrderSide::Sell),
    ensures
        forall|k: int|
            0 <= k < matched_pairs(bids, asks, fuel).len() ==> (#[trigger] matched_pairs(
                bids,
                asks,
                fuel,
            )[k]).0.price >= matched_pairs(bids, asks, fuel)[k].1.price,
    decreases fuel,
{
    if fuel > 0 && levels_cross(bids, asks) {
        lemma_pop_best_bid_wf(bids, OrderSide::Buy);
        lemma_pop_best_ask_wf(asks, OrderSide::Sell);
        lemma_matched_pairs_cross(pop_best_bid(bids), pop_best_ask(asks), (fuel - 1) as nat);
        assert(matched_pairs(bids, asks, fuel)[0].0.price >= matched_pairs(
            bids,
            asks,
            fuel,
        )[0].1.price);
    }
}

/// Price-time priority of the level backend: filing an order appends it at
/// the back of its price's FIFO and leaves every other price's FIFO as it
/// was. Matching consumes FIFOs from the front, so among equal-priced
/// orders the earlier-filed one is consumed first.
pub proof fn lemma_add_preserves_fifo(m: SideLevels, o: Order, p: u64)
    requires
        forall|i: int, j: int| 0 <= i < j < m.len() ==> (#[trigger] m[i]).0 < (#[trigger] m[j]).0,
    ensures
        level_orders(side_add(m, o), o.price) == level_orders(m, o.price).push(o),
        p != o.price ==> level_orders(side_add(m, o), p) == level_orders(m, p),
    decreases m.len(),
{
    if m.len() == 0 {
        reveal_with_fuel(level_orders, 3);
        assert(seq![(o.price, seq![o])].drop_first() =~= Seq::<(u64, Seq<Order>)>::empty());
        assert(level_orders(seq![(o.price, seq![o])], o.price) == seq![o]);
        assert(Seq::<Order>::empty().push(o) =~= seq![o]);
    } else if m[0].0 < o.price {
        lemma_add_preserves_fifo(m.drop_first(), o, p);
        let r = seq![m[0]] + side_add(m.drop_first(), o);
        assert(r[0] == m[0]);
        assert(r.drop_first() =~= side_add(m.drop_first(), o));
        // o.price is above the first level's price, so no level at o.price
        // sits at the front of either side.
        assert(level_orders(m, o.price) == level_orders(m.drop_first(), o.price));
    } else if m[0].0 == o.price {
        let r = seq![(m[0].0, m[0].1.push(o))] + m.drop_first();
        assert(r[0] == (m[0].0, m[0].1.push(o)));
        assert(r.drop_first() =~= m.drop_first());
    } else {
        let r = seq![(o.price, seq![o])] + m;
        assert(r[0] == (o.price, seq![o]));
        assert(r.drop_first() =~= m);
        assert(forall|i: int| 0 <= i < m.len() ==> (#[trigger] m[i]).0 != o.price);
        lemma_level_orders_absent(m, o.price);
        assert(Seq::<Order>::empty().push(o) =~= seq![o]);
    }
}

/// The ordered price-level book: one matcher per accepted symbol.
pub struct HashMapOrderBook {
    pub symbols: rustc_hash::FxHashSet<SymbolId>,
    pub directory: SymbolIndex,
    pub matchers: Vec<HashMapMatcher>,
}

impl HashMapOrderBook {
    /// The matcher owning an accepted symbol's resting orders.
    pub open spec fn matcher_of(&self, sym: SymbolId) -> HashMapMatcher {
        self.matchers@[self.directory.spec_slot(sym)]
    }

    /// Each accepted symbol's sides, as a map for the batch contracts.
    pub open spec fn states(&self) -> Map<SymbolId, (SideLevels, SideLevels)> {
        Map::new(
            |s: SymbolId| self.symbols@.contains(s),
            |s: SymbolId| (self.matcher_of(s).bids(), self.matcher_of(s).asks()),
        )
    }

    /// How one add (checked, fast or unchecked) evolves the book: an unknown
    /// symbol leaves it untouched; otherwise the order joins the back of its
    /// price's FIFO on its side of its symbol's matcher, and everything else
    /// stays as it was.
    pub open spec fn add_effect(pre: Self, post: Self, order: Order) -> bool {
        &&& post.symbols == pre.symbols
        &&& post.directory == pre.directory
        &&& post.matchers@.len() == pre.matchers@.len()
        &&& if pre.symbols@.contains(order.symbol) {
            &&& (order.is_buy() ==> post.matcher_of(order.symbol).bids() == side_add(
                pre.matcher_of(order.symbol).bids(),
                order,
            ) && post.matcher_of(order.symbol).asks() == pre.matcher_of(order.symbol).asks())
            &&& (order.is_sell() ==> post.matcher_of(order.symbol).asks() == side_add(
                pre.matcher_of(order.symbol).asks(),
                order,
            ) && post.matcher_of(order.symbol).bids() == pre.matcher_of(order.symbol).bids())
            &&& forall|s: SymbolId|
                pre.symbols@.contains(s) && s != order.symbol ==> #[trigger] post.matcher_of(s)
                    == pre.matcher_of(s)
        } else {
            post == pre
        }
    }

    /// How one matching pass evolves the book: every symbol's matcher runs
    /// to quiescence, and nothing else changes.
    pub open spec fn match_effect(pre: Self, post: Self) -> bool {
        &&& post.symbols == pre.symbols
        &&& post.directory == pre.directory
        &&& post.matchers@.len() == pre.matchers@.len()
        &&& forall|s: SymbolId|
            pre.symbols@.contains(s) ==> {
                &&& ((#[trigger] post.matcher_of(s)).bids(), post.matcher_of(s).asks())
                    == levels_match(
                    pre.matcher_of(s).bids(),
                    pre.matcher_of(s).asks(),
                    side_order_count(pre.matcher_of(s).bids()) + side_order_count(
                        pre.matcher_of(s).asks(),
                    ),
                )
                &&& !levels_cross(post.matcher_of(s).bids(), post.matcher_of(s).asks())
            }
    }

    /// How one fast batch evolves the book: the orders offered in sequence
    /// to their symbols' sides, `taken` of them accepted.
    pub open spec fn batch_effect(pre: Self, post: Self, orders: Seq<Order>, taken: int) -> bool {
        &&& post.symbols == pre.symbols
        &&& post.directory == pre.directory
        &&& post.matchers@.len() == pre.matchers@.len()
        &&& post.states() == crate::order_book_trait::batch_fold(
            pre.states(),
            pre.symbols@,
            orders,
            |st: (SideLevels, SideLevels), o: Order| level_book_offer(st, o),
        ).0
        &&& taken == crate::order_book_trait::batch_fold(
            pre.states(),
            pre.symbols@,
            orders,
            |st: (SideLevels, SideLevels), o: Order| level_book_offer(st, o),
        ).1
    }

    /// How one unchecked batch evolves the book: every order joins its
    /// symbol's sides in sequence.
    pub open spec fn batch_force_effect(pre: Self, post: Self, orders: Seq<Order>) -> bool {
        &&& post.symbols == pre.symbols
        &&& post.directory == pre.directory
        &&& post.matchers@.len() == pre.matchers@.len()
        &&& post.states() == crate::order_book_trait::batch_force(
            pre.states(),
            pre.symbols@,
            orders,
            |st: (SideLevels, SideLevels), o: Order| level_book_offer(st, o).0,
        )
    }
}

/// One order offered to one symbol's sides: filed under its price on its
/// side, never refused.
pub open spec fn level_book_offer(st: (SideLevels, SideLevels), o: Order) -> (
    (SideLevels, SideLevels),
    bool,
) {
    if o.is_buy() {
        ((side_add(st.0, o), st.1), true)
    } else {
        ((st.0, side_add(st.1, o)), true)
    }
}

impl OrderBookTrait for HashMapOrderBook {
    open spec fn inv(&self) -> bool {
        &&& self.directory.wf()
        &&& self.symbols@ == self.directory.symbols()
        &&& self.matchers@.len() == self.directory.ids@.len()
        &&& forall|i: int| 0 <= i < self.matchers@.len() ==> (#[trigger] self.matchers@[i]).wf()
    }

    open spec fn symbols_spec(&self) -> Set<SymbolId> {
        self.symbols@
    }

    /// This backend refuses no order on capacity grounds.
    open spec fn accepts_spec(&self, order: Order) -> bool {
        true
    }

    open spec fn best_prices_spec(&self, symbol: SymbolId) -> (Option<u64>, Option<u64>) {
        (best_bid_of(self.matcher_of(symbol).bids()), best_ask_of(self.matcher_of(symbol).asks()))
    }

    open spec fn can_match_spec(&self, symbol: SymbolId) -> bool {
        levels_cross(self.matcher_of(symbol).bids(), self.matcher_of(symbol).asks())
    }

    open spec fn book_type_spec() -> OrderBookType {
        OrderBookType::HashMap
    }

    fn new(symbols: rustc_hash::FxHashSet<SymbolId>) -> (r: Self) {
        let directory = SymbolIndex::new(&symbols);
        let n = directory.len();
        let mut matchers: Vec<HashMapMatcher> = Vec::new();
        let mut i: usize = 0;
        while i < n
            invariant
                0 <= i <= n,
                n == directory.ids@.len(),
                matchers@.len() == i,
                forall|j: int|
                    0 <= j < i ==> (#[trigger] matchers@[j]).wf() && matchers@[j].bids() == Seq::<
                        (u64, Seq<Order>),
                    >::empty() && matchers@[j].asks() == Seq::<(u64, Seq<Order>)>::empty(),
            decreases n - i,
        {
            matchers.push(HashMapMatcher::new());
            i = i + 1;
        }
        let r = HashMapOrderBook { symbols, directory, matchers };
        proof {
            assert forall|sym: SymbolId| r.symbols_spec().contains(sym) implies #[trigger] r.best_prices_spec(
                sym,
            ) == (Option::<u64>::None, Option::<u64>::None) && !r.can_match_spec(sym) by {
                r.directory.lemma_slot_in_range(sym);
            }
        }
        r
    }

    fn add_order(&mut self, order: Order) -> (r: Result<bool, OrderBookError>)
        ensures
            Self::add_effect(*old(self), *final(self), order),
    {
        match self.directory.slot_of(order.symbol) {
            Some(i) => {
                let m = &mut self.matchers[i];
                m.add_order(order);
                proof {
                    assert forall|s: SymbolId|
                        old(self).symbols_spec().contains(s) && s != order.symbol
                        implies #[trigger] self.matcher_of(s) == old(self).matcher_of(s) by {
                        self.directory.lemma_distinct_slots(s, order.symbol);
                        self.directory.lemma_slot_in_range(s);
                    }
                }
                Ok(true)
            },
            None => Err(OrderBookError::InvalidSymbol),
        }
    }

    fn add_order_fast(&mut self, order: Order) -> (accepted: bool)
        ensures
            Self::add_effect(*old(self), *final(self), order),
    {
        match self.directory.slot_of(order.symbol) {
            Some(i) => {
                let m = &mut self.matchers[i];
                m.add_order(order);
                proof {
                    assert forall|s: SymbolId|
                        old(self).symbols_spec().contains(s) && s != order.symbol
                        implies #[trigger] self.matcher_of(s) == old(self).matcher_of(s) by {
                        self.directory.lemma_distinct_slots(s, order.symbol);
                        self.directory.lemma_slot_in_range(s);
                    }
                }
                true
            },
            None => false,
        }
    }

    fn add_order_unchecked(&mut self, order: Order)
        ensures
            Self::add_effect(*old(self), *final(self), order),
    {
        match self.directory.slot_of(order.symbol) {
            Some(i) => {
                let m = &mut self.matchers[i];
                m.add_order(order);
                proof {
                    assert forall|s: SymbolId|
                        old(self).symbols_spec().contains(s) && s != order.symbol
                        implies #[trigger] self.matcher_of(s) == old(self).matcher_of(s) by {
                        self.directory.lemma_distinct_slots(s, order.symbol);
                        self.directory.lemma_slot_in_range(s);
                    }
                }
            },
            None => {
                proof {
                    assert(false);
                }
            },
        }
    }

    fn match_orders(&mut self)
        ensures
            Self::match_effect(*old(self), *final(self)),
    {
        let n = self.matchers.len();
        let mut i: usize = 0;
        while i < n
            invariant
                0 <= i <= n,
                n == self.matchers@.len(),
                self.matchers@.len() == old(self).matchers@.len(),
                self.symbols == old(self).symbols,
                self.directory == old(self).directory,
                self.inv(),
                forall|j: int|
                    i <= j < n ==> #[trigger] self.matchers@[j] == old(self).matchers@[j],
                forall|j: int|
                    0 <= j < i ==> {
                        &&& (
                        (#[trigger] self.matchers@[j]).bids(),
                        self.matchers@[j].asks(),
                        ) == levels_match(
                            old(self).matchers@[j].bids(),
                            old(self).matchers@[j].asks(),
                            side_order_count(old(self).matchers@[j].bids()) + side_order_count(
                                old(self).matchers@[j].asks(),
                            ),
                        )
                        &&& !levels_cross(self.matchers@[j].bids(), self.matchers@[j].asks())
                    },
            decreases n - i,
        {
            let m = &mut self.matchers[i];
            m.match_orders();
            i = i + 1;
        }
        proof {
            assert forall|s: SymbolId| old(self).symbols_spec().contains(s) implies {
                &&& (
                (#[trigger] self.matcher_of(s)).bids(),
                self.matcher_of(s).asks(),
                ) == levels_match(
                    old(self).matcher_of(s).bids(),
                    old(self).matcher_of(s).asks(),
                    side_order_count(old(self).matcher_of(s).bids()) + side_order_count(
                        old(self).matcher_of(s).asks(),
                    ),
                )
                &&& !levels_cross(self.matcher_of(s).bids(), self.matcher_of(s).asks())
            } by {
                old(self).directory.lemma_slot_in_range(s);
            }
        }
    }

    fn add_orders_batch_fast(&mut self, orders: &[Order]) -> (counts: (u32, u32))
        ensures
            Self::batch_effect(*old(self), *final(self), orders@, counts.0 as int),
    {
        let ghost offer = |st: (SideLevels, SideLevels), o: Order| level_book_offer(st, o);
        let ghost st0 = self.states();
        let ghost syms = self.symbols_spec();
        let mut successful: u32 = 0;
        let mut failed: u32 = 0;
        let n = orders.len();
        let mut k: usize = 0;
        proof {
            assert(orders@.subrange(0, n as int) =~= orders@);
        }
        while k < n
            invariant
                0 <= k <= n,
                n == orders@.len(),
                n <= u32::MAX,
                successful + failed == k,
                self.inv(),
                self.symbols_spec() == old(self).symbols_spec(),
                self.symbols == old(self).symbols,
                self.directory == old(self).directory,
                self.matchers@.len() == old(self).matchers@.len(),
                syms == old(self).symbols_spec(),
                st0 == old(self).states(),
                offer == (|st: (SideLevels, SideLevels), o: Order| level_book_offer(st, o)),
                crate::order_book_trait::batch_fold(st0, syms, orders@, offer).0
                    == crate::order_book_trait::batch_fold(
                    self.states(),
                    syms,
                    orders@.subrange(k as int, n as int),
                    offer,
                ).0,
                crate::order_book_trait::batch_fold(st0, syms, orders@, offer).1 == successful
                    + crate::order_book_trait::batch_fold(
                    self.states(),
                    syms,
                    orders@.subrange(k as int, n as int),
                    offer,
                ).1,
            decreases n - k,
        {
            let ghost pre = self.states();
            let ghost suffix = orders@.subrange(k as int, n as int);
            proof {
                assert(suffix[0] == orders@[k as int]);
                assert(suffix.drop_first() =~= orders@.subrange(k as int + 1, n as int));
            }
            let order = orders[k];
            if self.add_order_fast(order) {
                successful = successful + 1;
            } else {
                failed = failed + 1;
            }
            proof {
                if syms.contains(order.symbol) {
                    assert(self.states() =~= pre.insert(
                        order.symbol,
                        level_book_offer(pre[order.symbol], order).0,
                    ));
                } else {
                    assert(self.states() =~= pre);
                }
            }
            k = k + 1;
        }
        proof {
            assert(orders@.subrange(n as int, n as int) =~= Seq::<Order>::empty());
        }
        (successful, failed)
    }

    fn add_orders_batch_unchecked(&mut self, orders: &[Order]) -> (added: u32)
        ensures
            Self::batch_force_effect(*old(self), *final(self), orders@),
    {
        let ghost force = |st: (SideLevels, SideLevels), o: Order| level_book_offer(st, o).0;
        let ghost st0 = self.states();
        let ghost syms = self.symbols_spec();
        let n = orders.len();
        let mut k: usize = 0;
        proof {
            assert(orders@.subrange(0, n as int) =~= orders@);
        }
        while k < n
            invariant
                0 <= k <= n,
                n == orders@.len(),
                n <= u32::MAX,
                self.inv(),
                self.symbols_spec() == old(self).symbols_spec(),
                self.symbols == old(self).symbols,
                self.directory == old(self).directory,
                self.matchers@.len() == old(self).matchers@.len(),
                syms == old(self).symbols_spec(),
                st0 == old(self).states(),
                force == (|st: (SideLevels, SideLevels), o: Order| level_book_offer(st, o).0),
                forall|j: int|
                    0 <= j < orders@.len() ==> old(self).symbols_spec().contains(
                        (#[trigger] orders@[j]).symbol,
                    ),
                crate::order_book_trait::batch_force(st0, syms, orders@, force)
                    == crate::order_book_trait::batch_force(
                    self.states(),
                    syms,
                    orders@.subrange(k as int, n as int),
                    force,
                ),
            decreases n - k,
        {
            let ghost pre = self.states();
            let ghost suffix = orders@.subrange(k as int, n as int);
            proof {
                assert(suffix[0] == orders@[k as int]);
                assert(suffix.drop_first() =~= orders@.subrange(k as int + 1, n as int));
            }
            let order = orders[k];
            self.add_order_unchecked(order);
            proof {
                assert(self.states() =~= pre.insert(
                    order.symbol,
                    level_book_offer(pre[order.symbol], order).0,
                ));
            }
            k = k + 1;
        }
        proof {
            assert(orders@.subrange(n as int, n as int) =~= Seq::<Order>::empty());
        }
        n as u32
    }

    fn get_best_prices(&self, symbol: SymbolId) -> (r: Option<(Option<u64>, Option<u64>)>) {
        match self.directory.slot_of(symbol) {
            Some(i) => {
                let m = &self.matchers[i];
                Some(m.get_best_prices())
            },
            None => None,
        }
    }

    fn can_match(&self, symbol: SymbolId) -> (r: bool) {
        match self.directory.slot_of(symbol) {
            Some(i) => {
                let m = &self.matchers[i];
                m.can_match()
            },
            None => false,
        }
    }

    fn is_valid_symbol(&self, symbol: SymbolId) -> (r: bool) {
        let r = crate::fxmap::fx_set_contains(&self.symbols, symbol);
        r
    }

    fn get_symbols(&self) -> (r: &rustc_hash::FxHashSet<SymbolId>) {
        &self.symbols
    }

    fn order_book_type(&self) -> (r: OrderBookType) {
        OrderBookType::HashMap
    }
}

/// Matching consumes exactly the matched pairs: one resting order per side
/// per pair, and nothing else.
pub proof fn lemma_match_consumes_pairs(bids: SideLevels, asks: SideLevels, fuel: nat)
    requires
        side_wf(bids, OrderSide::Buy),
        side_wf(asks, OrderSide::Sell),
    ensures
        side_order_count(levels_match(bids, asks, fuel).0) + side_order_count(
            levels_match(bids, asks, fuel).1,
        ) == side_order_count(bids) + side_order_count(asks) - 2 * matched_pairs(
            bids,
            asks,
            fuel,
        ).len(),
    decreases fuel,
{
    if fuel > 0 && levels_cross(bids, asks) {
        lemma_pop_best_bid_wf(bids, OrderSide::Buy);
        lemma_pop_best_ask_wf(asks, OrderSide::Sell);
        lemma_match_consumes_pairs(pop_best_bid(bids), pop_best_ask(asks), (fuel - 1) as nat);
    }
}

/// A quiescent book is a fixed point of matching: once no cross remains,
/// further matching passes change nothing.
pub proof fn lemma_match_quiescent_fixed(bids: SideLevels, asks: SideLevels, fuel: nat)
    requires
        !levels_cross(bids, asks),
    ensures
        levels_match(bids, asks, fuel) == (bids, asks),
{
}

} // verus!
