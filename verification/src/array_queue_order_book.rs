//! The bounded ring-buffer backend: each side rests orders in a
//! fixed-capacity crossbeam ring in arrival order, not price order. Two
//! cached extrema track the best price ever pushed since the last reset and
//! are deliberately not re-derived from the rings; matching inspects only
//! the ring fronts for a bounded number of attempts and clears the extrema
//! after any match. These are documented precision-for-speed trade-offs.

use vstd::prelude::*;

use crate::order::{Order, OrderSide, SymbolId};
use crate::order_book::OrderBookType;
use crate::order_book_trait::{OrderBookError, OrderBookTrait};
use crate::symbol_index::SymbolIndex;
use crate::ring::{
    ring_cap, ring_capacity, ring_contents, ring_force_push, ring_is_empty, ring_len, ring_new,
    ring_pop, ring_push,
};

verus! {

/// The capacity of each side's ring.
pub const DEFAULT_QUEUE_SIZE: usize = 4096;

/// A raised cached extremum: the old value pushed up to the new price.
pub open spec fn bump_max(current: Option<u64>, price: u64) -> Option<u64> {
    match current {
        Some(v) => if v >= price {
            Some(v)
        } else {
            Some(price)
        },
        None => Some(price),
    }
}

/// A lowered cached extremum: the old value pushed down to the new price.
pub open spec fn bump_min(current: Option<u64>, price: u64) -> Option<u64> {
    match current {
        Some(v) => if v <= price {
            Some(v)
        } else {
            Some(price)
        },
        None => Some(price),
    }
}

/// The bounded matching loop believes a cross is possible: both cached
/// extrema are known, they cross, and both rings rest orders.
pub open spec fn aq_cross(
    bids: Seq<Order>,
    asks: Seq<Order>,
    best_bid: Option<u64>,
    best_ask: Option<u64>,
) -> bool {
    &&& best_bid matches Some(b) && best_ask matches Some(a) && b >= a
    &&& bids.len() > 0
    &&& asks.len() > 0
}

/// One bounded matching pass over the ring fronts: while the cached extrema
/// indicate a cross, the front order of each ring is popped; a crossing
/// front pair counts as a match, a non-crossing pair is pushed back at the
/// tails and the pass stops. The result is both rings and the match count.
pub open spec fn aq_run(
    bids: Seq<Order>,
    asks: Seq<Order>,
    best_bid: Option<u64>,
    best_ask: Option<u64>,
    fuel: nat,
) -> (Seq<Order>, Seq<Order>, nat)
    decreases fuel,
{
    if fuel == 0 || !aq_cross(bids, asks, best_bid, best_ask) {
        (bids, asks, 0 as nat)
    } else {
        let bid_front = bids[0];
        let ask_front = asks[0];
        if bid_front.price >= ask_front.price {
            let rest = aq_run(
                bids.drop_first(),
                asks.drop_first(),
                best_bid,
                best_ask,
                (fuel - 1) as nat,
            );
            (rest.0, rest.1, (rest.2 + 1) as nat)
        } else {
            (bids.drop_first().push(bid_front), asks.drop_first().push(ask_front), 0 as nat)
        }
    }
}

/// One order offered to one symbol's rings and extrema: rested at the tail
/// of its side when the ring has room, refused when it is full.
pub open spec fn ring_book_offer(
    st: (Seq<Order>, Seq<Order>, Option<u64>, Option<u64>),
    o: Order,
) -> ((Seq<Order>, Seq<Order>, Option<u64>, Option<u64>), bool) {
    if o.is_buy() {
        if st.0.len() < DEFAULT_QUEUE_SIZE {
            ((st.0.push(o), st.1, bump_max(st.2, o.price), st.3), true)
        } else {
            (st, false)
        }
    } else {
        if st.1.len() < DEFAULT_QUEUE_SIZE {
            ((st.0, st.1.push(o), st.2, bump_min(st.3, o.price)), true)
        } else {
            (st, false)
        }
    }
}

/// One order forced onto one symbol's rings: a full ring evicts its oldest
/// resting order; the extremum is raised either way.
pub open spec fn ring_book_force(
    st: (Seq<Order>, Seq<Order>, Option<u64>, Option<u64>),
    o: Order,
) -> (Seq<Order>, Seq<Order>, Option<u64>, Option<u64>) {
    if o.is_buy() {
        if st.0.len() < DEFAULT_QUEUE_SIZE {
            (st.0.push(o), st.1, bump_max(st.2, o.price), st.3)
        } else {
            (st.0.drop_first().push(o), st.1, bump_max(st.2, o.price), st.3)
        }
    } else {
        if st.1.len() < DEFAULT_QUEUE_SIZE {
            (st.0, st.1.push(o), st.2, bump_min(st.3, o.price))
        } else {
            (st.0, st.1.drop_first().push(o), st.2, bump_min(st.3, o.price))
        }
    }
}

/// The per-symbol matcher of the ring-buffer backend: one bounded ring per
/// side and the two cached extrema.
pub struct ArrayQueueMatcher {
    pub bids: crossbeam::queue::ArrayQueue<Order>,
    pub asks: crossbeam::queue::ArrayQueue<Order>,
    pub best_bid: Option<u64>,
    pub best_ask: Option<u64>,
}

impl ArrayQueueMatcher {
    /// The resting bid orders, oldest first.
    pub open spec fn bid_orders(self) -> Seq<Order> {
        ring_contents(self.bids)
    }

    /// The resting ask orders, oldest first.
    pub open spec fn ask_orders(self) -> Seq<Order> {
        ring_contents(self.asks)
    }

    /// Rings of the fixed capacity, within capacity, each order on its own
    /// side. Nothing ties the cached extrema to the ring contents: they go
    /// stale by design after a match.
    pub open spec fn wf(self) -> bool {
        &&& ring_capacity(self.bids) == DEFAULT_QUEUE_SIZE
        &&& ring_capacity(self.asks) == DEFAULT_QUEUE_SIZE
        &&& self.bid_orders().len() <= DEFAULT_QUEUE_SIZE
        &&& self.ask_orders().len() <= DEFAULT_QUEUE_SIZE
        &&& forall|i: int| 0 <= i < self.bid_orders().len() ==> (#[trigger] self.bid_orders()[i]).is_buy()
        &&& forall|i: int| 0 <= i < self.ask_orders().len() ==> (#[trigger] self.ask_orders()[i]).is_sell()
    }

    /// An empty matcher with unknown extrema.
    pub fn new() -> (m: Self)
        ensures
            m.wf(),
            m.bid_orders() == Seq::<Order>::empty(),
            m.ask_orders() == Seq::<Order>::empty(),
            m.best_bid is None,
            m.best_ask is None,
    {
        ArrayQueueMatcher {
            bids: ring_new(DEFAULT_QUEUE_SIZE),
            asks: ring_new(DEFAULT_QUEUE_SIZE),
            best_bid: None,
            best_ask: None,
        }
    }

    /// Rests the order at the tail of its side's ring, raising that side's
    /// cached extremum on success; reports failure when the ring is full.
    pub fn add_order(&mut self, order: Order) -> (accepted: bool)
        requires
            old(self).wf(),
        ensures
            final(self).wf(),
            order.is_buy() ==> {
                &&& accepted == (old(self).bid_orders().len() < DEFAULT_QUEUE_SIZE)
                &&& (accepted ==> final(self).bid_orders() == old(self).bid_orders().push(order)
                    && final(self).best_bid == bump_max(old(self).best_bid, order.price))
                &&& (!accepted ==> final(self).bid_orders() == old(self).bid_orders()
                    && final(self).best_bid == old(self).best_bid)
                &&& final(self).ask_orders() == old(self).ask_orders()
                &&& final(self).best_ask == old(self).best_ask
            },
            order.is_sell() ==> {
                &&& accepted == (old(self).ask_orders().len() < DEFAULT_QUEUE_SIZE)
                &&& (accepted ==> final(self).ask_orders() == old(self).ask_orders().push(order)
                    && final(self).best_ask == bump_min(old(self).best_ask, order.price))
                &&& (!accepted ==> final(self).ask_orders() == old(self).ask_orders()
                    && final(self).best_ask == old(self).best_ask)
                &&& final(self).bid_orders() == old(self).bid_orders()
                &&& final(self).best_bid == old(self).best_bid
            },
    {
        match order.order_type {
            OrderSide::Buy => {
                let price = order.price;
                if ring_push(&mut self.bids, order) {
                    self.best_bid = match self.best_bid {
                        Some(current) => if current >= price {
                            Some(current)
                        } else {
                            Some(price)
                        },
                        None => Some(price),
                    };
                    true
                } else {
                    false
                }
            },
            OrderSide::Sell => {
                let price = order.price;
                if ring_push(&mut self.asks, order) {
                    self.best_ask = match self.best_ask {
                        Some(current) => if current <= price {
                            Some(current)
                        } else {
                            Some(price)
                        },
                        None => Some(price),
                    };
                    true
                } else {
                    false
                }
            },
        }
    }

    /// Force-rests the order at the tail of its side's ring, evicting and
    /// discarding the oldest resting order when the ring is full; the cached
    /// extremum is raised unconditionally.
    pub fn add_order_unchecked(&mut self, order: Order)
        requires
            old(self).wf(),
        ensures
            final(self).wf(),
            order.is_buy() ==> {
                &&& (old(self).bid_orders().len() < DEFAULT_QUEUE_SIZE
                    ==> final(self).bid_orders() == old(self).bid_orders().push(order))
                &&& (old(self).bid_orders().len() >= DEFAULT_QUEUE_SIZE
                    ==> final(self).bid_orders() == old(self).bid_orders().drop_first().push(order))
                &&& final(self).best_bid == bump_max(old(self).best_bid, order.price)
                &&& final(self).ask_orders() == old(self).ask_orders()
                &&& final(self).best_ask == old(self).best_ask
            },
            order.is_sell() ==> {
                &&& (old(self).ask_orders().len() < DEFAULT_QUEUE_SIZE
                    ==> final(self).ask_orders() == old(self).ask_orders().push(order))
                &&& (old(self).ask_orders().len() >= DEFAULT_QUEUE_SIZE
                    ==> final(self).ask_orders() == old(self).ask_orders().drop_first().push(order))
                &&& final(self).best_ask == bump_min(old(self).best_ask, order.price)
                &&& final(self).bid_orders() == old(self).bid_orders()
                &&& final(self).best_bid == old(self).best_bid
            },
    {
        match order.order_type {
            OrderSide::Buy => {
                let price = order.price;
                let _ = ring_force_push(&mut self.bids, order);
                self.best_bid = match self.best_bid {
                    Some(current) => if current >= price {
                        Some(current)
                    } else {
                        Some(price)
                    },
                    None => Some(price),
                };
            },
            OrderSide::Sell => {
                let price = order.price;
                let _ = ring_force_push(&mut self.asks, order);
                self.best_ask = match self.best_ask {
                    Some(current) => if current <= price {
                        Some(current)
                    } else {
                        Some(price)
                    },
                    None => Some(price),
                };
            },
        }
    }

    /// Whether the cached extrema indicate a possible cross and both rings
    /// rest orders.
    pub fn can_match_optimistic(&self) -> (r: bool)
        requires
            self.wf(),
        ensures
            r == aq_cross(self.bid_orders(), self.ask_orders(), self.best_bid, self.best_ask),
    {
        match (self.best_bid, self.best_ask) {
            (Some(bid), Some(ask)) => bid >= ask && !ring_is_empty(&self.bids) && !ring_is_empty(
                &self.asks,
            ),
            _ => false,
        }
    }

    /// Clears both cached extrema; they stay unknown until new pushes
    /// re-establish them.
    pub fn recalculate_best_prices(&mut self)
        requires
            old(self).wf(),
        ensures
            final(self).wf(),
            final(self).bid_orders() == old(self).bid_orders(),
            final(self).ask_orders() == old(self).ask_orders(),
            final(self).best_bid is None,
            final(self).best_ask is None,
    {
        self.best_bid = None;
        self.best_ask = None;
    }

    /// One bounded matching pass over the ring fronts, at most 100 attempts;
    /// after any match both cached extrema are cleared.
    pub fn match_orders(&mut self)
        requires
            old(self).wf(),
        ensures
            final(self).wf(),
            final(self).bid_orders() == aq_run(
                old(self).bid_orders(),
                old(self).ask_orders(),
                old(self).best_bid,
                old(self).best_ask,
                100,
            ).0,
            final(self).ask_orders() == aq_run(
                old(self).bid_orders(),
                old(self).ask_orders(),
                old(self).best_bid,
                old(self).best_ask,
                100,
            ).1,
            aq_run(
                old(self).bid_orders(),
                old(self).ask_orders(),
                old(self).best_bid,
                old(self).best_ask,
                100,
            ).2 > 0 ==> final(self).best_bid is None && final(self).best_ask is None,
            aq_run(
                old(self).bid_orders(),
                old(self).ask_orders(),
                old(self).best_bid,
                old(self).best_ask,
                100,
            ).2 == 0 ==> final(self).best_bid == old(self).best_bid
                && final(self).best_ask == old(self).best_ask,
    {
        let ghost b0 = self.bid_orders();
        let ghost a0 = self.ask_orders();
        let ghost cb = self.best_bid;
        let ghost ca = self.best_ask;
        let ghost goal = aq_run(b0, a0, cb, ca, 100);
        let mut matched_count: usize = 0;
        let mut attempts: usize = 0;
        loop
            invariant_except_break
                matched_count == aq_run(
                    b0,
                    a0,
                    cb,
                    ca,
                    100,
                ).2 - aq_run(
                    self.bid_orders(),
                    self.ask_orders(),
                    cb,
                    ca,
                    (100 - attempts) as nat,
                ).2,
                aq_run(b0, a0, cb, ca, 100).0 == aq_run(
                    self.bid_orders(),
                    self.ask_orders(),
                    cb,
                    ca,
                    (100 - attempts) as nat,
                ).0,
                aq_run(b0, a0, cb, ca, 100).1 == aq_run(
                    self.bid_orders(),
                    self.ask_orders(),
                    cb,
                    ca,
                    (100 - attempts) as nat,
                ).1,
            invariant
                self.wf(),
                self.best_bid == cb,
                self.best_ask == ca,
                0 <= attempts <= 100,
                matched_count <= attempts,
            ensures
                self.wf(),
                self.best_bid == cb,
                self.best_ask == ca,
                self.bid_orders() == aq_run(b0, a0, cb, ca, 100).0,
                self.ask_orders() == aq_run(b0, a0, cb, ca, 100).1,
                matched_count == aq_run(b0, a0, cb, ca, 100).2,
            decreases 100 - attempts,
        {
            if attempts >= 100 {
                break;
            }
            if !self.can_match_optimistic() {
                break;
            }
            let ghost bids_pre = self.bid_orders();
            let ghost asks_pre = self.ask_orders();
            let bid_order = ring_pop(&mut self.bids);
            let ask_order = ring_pop(&mut self.asks);
            proof {
                assert(aq_cross(bids_pre, asks_pre, cb, ca));
                assert(aq_run(bids_pre, asks_pre, cb, ca, (100 - attempts) as nat) == (if bids_pre[0].price >= asks_pre[0].price {
                    let rest = aq_run(
                        bids_pre.drop_first(),
                        asks_pre.drop_first(),
                        cb,
                        ca,
                        (100 - attempts - 1) as nat,
                    );
                    (rest.0, rest.1, (rest.2 + 1) as nat)
                } else {
                    (
                        bids_pre.drop_first().push(bids_pre[0]),
                        asks_pre.drop_first().push(asks_pre[0]),
                        0 as nat,
                    )
                }));
            }
            match (bid_order, ask_order) {
                (Some(front_bid), Some(front_ask)) => {
                    if front_bid.price >= front_ask.price {
                        matched_count = matched_count + 1;
                    } else {
                        let _ = ring_push(&mut self.bids, front_bid);
                        let _ = ring_push(&mut self.asks, front_ask);
                        proof {
                            assert(self.bid_orders() == bids_pre.drop_first().push(bids_pre[0]));
                            assert(self.ask_orders() == asks_pre.drop_first().push(asks_pre[0]));
                        }
                        break;
                    }
                },
                _ => {
                    break;
                },
            }
            attempts = attempts + 1;
        }
        if matched_count > 0 {
            self.recalculate_best_prices();
        }
    }

    /// Both cached extrema as they stand, possibly stale after a match.
    pub fn get_best_prices(&self) -> (r: (Option<u64>, Option<u64>))
        ensures
            r == (self.best_bid, self.best_ask),
    {
        (self.best_bid, self.best_ask)
    }

    /// Whether both rings rest orders and the cached extrema cross.
    pub fn can_match(&self) -> (r: bool)
        requires
            self.wf(),
        ensures
            r == aq_cross(self.bid_orders(), self.ask_orders(), self.best_bid, self.best_ask),
    {
        if ring_is_empty(&self.bids) || ring_is_empty(&self.asks) {
            return false;
        }
        match (self.best_bid, self.best_ask) {
            (Some(bid), Some(ask)) => bid >= ask,
            _ => false,
        }
    }

    /// The fixed capacities of both rings, bid side first.
    pub fn queue_capacities(&self) -> (r: (usize, usize))
        requires
            self.wf(),
        ensures
            r == (DEFAULT_QUEUE_SIZE, DEFAULT_QUEUE_SIZE),
    {
        (ring_cap(&self.bids), ring_cap(&self.asks))
    }

    /// How many orders rest in each ring, bid side first.
    pub fn queue_lengths(&self) -> (r: (usize, usize))
        requires
            self.wf(),
        ensures
            r.0 == self.bid_orders().len(),
            r.1 == self.ask_orders().len(),
    {
        (ring_len(&self.bids), ring_len(&self.asks))
    }

    /// Whether both rings rest no orders.
    pub fn is_empty(&self) -> (r: bool)
        requires
            self.wf(),
        ensures
            r == (self.bid_orders().len() == 0 && self.ask_orders().len() == 0),
    {
        ring_is_empty(&self.bids) && ring_is_empty(&self.asks)
    }
}

/// The ring-buffer book: one matcher per accepted symbol.
pub struct ArrayQueueOrderBook {
    pub symbols: rustc_hash::FxHashSet<SymbolId>,
    pub directory: SymbolIndex,
    pub matchers: Vec<ArrayQueueMatcher>,
}

impl ArrayQueueOrderBook {
    /// The matcher owning an accepted symbol's resting orders.
    pub open spec fn matcher_of(&self, sym: SymbolId) -> ArrayQueueMatcher {
        self.matchers@[self.directory.spec_slot(sym)]
    }

    /// Each accepted symbol's rings and cached extrema, as a map for the
    /// batch contracts.
    pub open spec fn states(&self) -> Map<
        SymbolId,
        (Seq<Order>, Seq<Order>, Option<u64>, Option<u64>),
    > {
        Map::new(
            |s: SymbolId| self.symbols@.contains(s),
            |s: SymbolId|
                (
                    self.matcher_of(s).bid_orders(),
                    self.matcher_of(s).ask_orders(),
                    self.matcher_of(s).best_bid,
                    self.matcher_of(s).best_ask,
                ),
        )
    }

    /// How one add (checked or fast) evolves the book: an unknown symbol
    /// leaves it untouched; the order rests at the tail of its side's ring
    /// of its symbol's matcher when the ring has room, raising that side's
    /// cached extremum, and is dropped with nothing changed when the ring
    /// is full; everything else stays as it was.
    pub open spec fn add_effect(pre: Self, post: Self, order: Order) -> bool {
        &&& post.symbols == pre.symbols
        &&& post.directory == pre.directory
        &&& post.matchers@.len() == pre.matchers@.len()
        &&& if pre.symbols@.contains(order.symbol) {
            let m0 = pre.matcher_of(order.symbol);
            let m1 = post.matcher_of(order.symbol);
            &&& (order.is_buy() && m0.bid_orders().len() < DEFAULT_QUEUE_SIZE ==> m1.bid_orders()
                == m0.bid_orders().push(order) && m1.best_bid == bump_max(m0.best_bid, order.price)
                && m1.ask_orders() == m0.ask_orders() && m1.best_ask == m0.best_ask)
            &&& (order.is_sell() && m0.ask_orders().len() < DEFAULT_QUEUE_SIZE ==> m1.ask_orders()
                == m0.ask_orders().push(order) && m1.best_ask == bump_min(m0.best_ask, order.price)
                && m1.bid_orders() == m0.bid_orders() && m1.best_bid == m0.best_bid)
            &&& (order.is_buy() && m0.bid_orders().len() >= DEFAULT_QUEUE_SIZE ==> m1.bid_orders()
                == m0.bid_orders() && m1.ask_orders() == m0.ask_orders() && m1.best_bid
                == m0.best_bid && m1.best_ask == m0.best_ask)
            &&& (order.is_sell() && m0.ask_orders().len() >= DEFAULT_QUEUE_SIZE ==> m1.ask_orders()
                == m0.ask_orders() && m1.bid_orders() == m0.bid_orders() && m1.best_bid
                == m0.best_bid && m1.best_ask == m0.best_ask)
            &&& forall|s: SymbolId|
                pre.symbols@.contains(s) && s != order.symbol ==> #[trigger] post.matcher_of(s)
                    == pre.matcher_of(s)
        } else {
            post == pre
        }
    }

    /// How one unchecked add evolves the book, its symbol being accepted:
    /// the order rests at the tail of its side's ring, the oldest resting
    /// order being evicted when the ring is full; the cached extremum is
    /// raised either way.
    pub open spec fn force_effect(pre: Self, post: Self, order: Order) -> bool {
        &&& post.symbols == pre.symbols
        &&& post.directory == pre.directory
        &&& post.matchers@.len() == pre.matchers@.len()
        &&& {
            let m0 = pre.matcher_of(order.symbol);
            let m1 = post.matcher_of(order.symbol);
            &&& (order.is_buy() ==> {
                &&& (m0.bid_orders().len() < DEFAULT_QUEUE_SIZE ==> m1.bid_orders()
                    == m0.bid_orders().push(order))
                &&& (m0.bid_orders().len() >= DEFAULT_QUEUE_SIZE ==> m1.bid_orders()
                    == m0.bid_orders().drop_first().push(order))
                &&& m1.best_bid == bump_max(m0.best_bid, order.price)
                &&& m1.ask_orders() == m0.ask_orders()
                &&& m1.best_ask == m0.best_ask
            })
            &&& (order.is_sell() ==> {
                &&& (m0.ask_orders().len() < DEFAULT_QUEUE_SIZE ==> m1.ask_orders()
                    == m0.ask_orders().push(order))
                &&& (m0.ask_orders().len() >= DEFAULT_QUEUE_SIZE ==> m1.ask_orders()
                    == m0.ask_orders().drop_first().push(order))
                &&& m1.best_ask == bump_min(m0.best_ask, order.price)
                &&& m1.bid_orders() == m0.bid_orders()
                &&& m1.best_bid == m0.best_bid
            })
        }
        &&& forall|s: SymbolId|
            pre.symbols@.contains(s) && s != order.symbol ==> #[trigger] post.matcher_of(s)
                == pre.matcher_of(s)
    }

    /// How one matching pass evolves the book: every symbol's rings run the
    /// bounded front-only pass, the cached extrema cleared after any match,
    /// and nothing else changes.
    pub open spec fn match_effect(pre: Self, post: Self) -> bool {
        &&& post.symbols == pre.symbols
        &&& post.directory == pre.directory
        &&& post.matchers@.len() == pre.matchers@.len()
        &&& forall|s: SymbolId|
            pre.symbols@.contains(s) ==> {
                let m0 = pre.matcher_of(s);
                let m1 = #[trigger] post.matcher_of(s);
                let run = aq_run(m0.bid_orders(), m0.ask_orders(), m0.best_bid, m0.best_ask, 100);
                &&& m1.bid_orders() == run.0
                &&& m1.ask_orders() == run.1
                &&& (run.2 > 0 ==> m1.best_bid is None && m1.best_ask is None)
                &&& (run.2 == 0 ==> m1.best_bid == m0.best_bid && m1.best_ask == m0.best_ask)
            }
    }

    /// How one fast batch evolves the book: the orders offered in sequence
    /// to their symbols' rings, `taken` of them accepted.
    pub open spec fn batch_effect(pre: Self, post: Self, orders: Seq<Order>, taken: int) -> bool {
        &&& post.symbols == pre.symbols
        &&& post.directory == pre.directory
        &&& post.matchers@.len() == pre.matchers@.len()
        &&& post.states() == crate::order_book_trait::batch_fold(
            pre.states(),
            pre.symbols@,
            orders,
            |st: (Seq<Order>, Seq<Order>, Option<u64>, Option<u64>), o: Order|
                ring_book_offer(st, o),
        ).0
        &&& taken == crate::order_book_trait::batch_fold(
            pre.states(),
            pre.symbols@,
            orders,
            |st: (Seq<Order>, Seq<Order>, Option<u64>, Option<u64>), o: Order|
                ring_book_offer(st, o),
        ).1
    }

    /// How one unchecked batch evolves the book: every order is forced onto
    /// its symbol's rings in sequence, evicting where full.
    pub open spec fn batch_force_effect(pre: Self, post: Self, orders: Seq<Order>) -> bool {
        &&& post.symbols == pre.symbols
        &&& post.directory == pre.directory
        &&& post.matchers@.len() == pre.matchers@.len()
        &&& post.states() == crate::order_book_trait::batch_force(
            pre.states(),
            pre.symbols@,
            orders,
            |st: (Seq<Order>, Seq<Order>, Option<u64>, Option<u64>), o: Order|
                ring_book_force(st, o),
        )
    }

    /// Ring capacities and lengths for an accepted symbol, as
    /// `(bid capacity, ask capacity, bid length, ask length)`.
    pub fn get_queue_stats(&self, symbol: SymbolId) -> (r: Option<(usize, usize, usize, usize)>)
        requires
            self.inv(),
        ensures
            r == (if self.symbols_spec().contains(symbol) {
                Some(
                    (
                        DEFAULT_QUEUE_SIZE,
                        DEFAULT_QUEUE_SIZE,
                        self.matcher_of(symbol).bid_orders().len() as usize,
                        self.matcher_of(symbol).ask_orders().len() as usize,
                    ),
                )
            } else {
                Option::<(usize, usize, usize, usize)>::None
            }),
    {
        match self.directory.slot_of(symbol) {
            Some(i) => {
                let m = &self.matchers[i];
                let caps = m.queue_capacities();
                let lens = m.queue_lengths();
                Some((caps.0, caps.1, lens.0, lens.1))
            },
            None => None,
        }
    }

    /// Whether the symbol's rings rest no orders; an unknown symbol counts
    /// as empty.
    pub fn is_symbol_empty(&self, symbol: SymbolId) -> (r: bool)
        requires
            self.inv(),
        ensures
            r == (self.symbols_spec().contains(symbol) ==> self.matcher_of(
                symbol,
            ).bid_orders().len() == 0 && self.matcher_of(symbol).ask_orders().len() == 0),
    {
        match self.directory.slot_of(symbol) {
            Some(i) => {
                let m = &self.matchers[i];
                m.is_empty()
            },
            None => true,
        }
    }
}

impl OrderBookTrait for ArrayQueueOrderBook {
    open spec fn inv(&self) -> bool {
        &&& self.directory.wf()
        &&& self.symbols@ == self.directory.symbols()
        &&& self.matchers@.len() == self.directory.ids@.len()
        &&& forall|i: int| 0 <= i < self.matchers@.len() ==> (#[trigger] self.matchers@[i]).wf()
    }

    open spec fn symbols_spec(&self) -> Set<SymbolId> {
        self.symbols@
    }

    /// This backend refuses an order whose side's ring is full.
    open spec fn accepts_spec(&self, order: Order) -> bool {
        if order.is_buy() {
            self.matcher_of(order.symbol).bid_orders().len() < DEFAULT_QUEUE_SIZE
        } else {
            self.matcher_of(order.symbol).ask_orders().len() < DEFAULT_QUEUE_SIZE
        }
    }

    /// The cached extrema as they stand, possibly stale after a match.
    open spec fn best_prices_spec(&self, symbol: SymbolId) -> (Option<u64>, Option<u64>) {
        (self.matcher_of(symbol).best_bid, self.matcher_of(symbol).best_ask)
    }

    open spec fn can_match_spec(&self, symbol: SymbolId) -> bool {
        aq_cross(
            self.matcher_of(symbol).bid_orders(),
            self.matcher_of(symbol).ask_orders(),
            self.matcher_of(symbol).best_bid,
            self.matcher_of(symbol).best_ask,
        )
    }

    open spec fn book_type_spec() -> OrderBookType {
        OrderBookType::ArrayQueue
    }

    fn new(symbols: rustc_hash::FxHashSet<SymbolId>) -> (r: Self)
        ensures
            forall|sym: SymbolId|
                r.symbols_spec().contains(sym) ==> (#[trigger] r.matcher_of(sym)).bid_orders()
                    == Seq::<Order>::empty() && r.matcher_of(sym).ask_orders() == Seq::<
                    Order,
                >::empty(),
    {
        let directory = SymbolIndex::new(&symbols);
        let n = directory.len();
        let mut matchers: Vec<ArrayQueueMatcher> = Vec::new();
        let mut i: usize = 0;
        while i < n
            invariant
                0 <= i <= n,
                n == directory.ids@.len(),
                matchers@.len() == i,
                forall|j: int|
                    0 <= j < i ==> (#[trigger] matchers@[j]).wf() && matchers@[j].bid_orders()
                        == Seq::<Order>::empty() && matchers@[j].ask_orders() == Seq::<
                        Order,
                    >::empty() && matchers@[j].best_bid is None && matchers@[j].best_ask is None,
            decreases n - i,
        {
            matchers.push(ArrayQueueMatcher::new());
            i = i + 1;
        }
        let r = ArrayQueueOrderBook { symbols, directory, matchers };
        proof {
            assert forall|sym: SymbolId| r.symbols_spec().contains(sym) implies #[trigger] r.best_prices_spec(
                sym,
            ) == (Option::<u64>::None, Option::<u64>::None) && !r.can_match_spec(sym) by {
                r.directory.lemma_slot_in_range(sym);
            }
            assert forall|sym: SymbolId| r.symbols_spec().contains(sym) implies (
            #[trigger] r.matcher_of(sym)).bid_orders() == Seq::<Order>::empty()
                && r.matcher_of(sym).ask_orders() == Seq::<Order>::empty() by {
                r.directory.lemma_slot_in_range(sym);
            }
        }
        r
    }

    fn add_order(&mut self, order: Order) -> (r: Result<bool, OrderBookError>)
        ensures
            Self::add_effect(*old(self), *final(self), order),
    {
        match self.directory.slot_of(order.symbol) {
            Some(i) => {
                let m = &mut self.matchers[i];
                let accepted = m.add_order(order);
                proof {
                    assert forall|s: SymbolId|
                        old(self).symbols_spec().contains(s) && s != order.symbol
                        implies #[trigger] self.matcher_of(s) == old(self).matcher_of(s) by {
                        self.directory.lemma_distinct_slots(s, order.symbol);
                        self.directory.lemma_slot_in_range(s);
                    }
                }
                Ok(accepted)
            },
            None => Err(OrderBookError::InvalidSymbol),
        }
    }

    fn add_order_fast(&mut self, order: Order) -> (accepted: bool)
        ensures
            Self::add_effect(*old(self), *final(self), order),
    {
        match self.directory.slot_of(order.symbol) {
            Some(i) => {
                let m = &mut self.matchers[i];
                let accepted = m.add_order(order);
                proof {
                    assert forall|s: SymbolId|
                        old(self).symbols_spec().contains(s) && s != order.symbol
                        implies #[trigger] self.matcher_of(s) == old(self).matcher_of(s) by {
                        self.directory.lemma_distinct_slots(s, order.symbol);
                        self.directory.lemma_slot_in_range(s);
                    }
                }
                accepted
            },
            None => false,
        }
    }

    /// The unchecked path force-pushes: a full ring evicts its oldest
    /// resting order instead of refusing.
    fn add_order_unchecked(&mut self, order: Order)
        ensures
            Self::force_effect(*old(self), *final(self), order),
    {
        match self.directory.slot_of(order.symbol) {
            Some(i) => {
                let m = &mut self.matchers[i];
                m.add_order_unchecked(order);
                proof {
                    assert forall|s: SymbolId|
                        old(self).symbols_spec().contains(s) && s != order.symbol
                        implies #[trigger] self.matcher_of(s) == old(self).matcher_of(s) by {
                        self.directory.lemma_distinct_slots(s, order.symbol);
                        self.directory.lemma_slot_in_range(s);
                    }
                }
            },
            None => {
                proof {
                    assert(false);
                }
            },
        }
    }

    fn match_orders(&mut self)
        ensures
            Self::match_effect(*old(self), *final(self)),
    {
        let n = self.matchers.len();
        let mut i: usize = 0;
        while i < n
            invariant
                0 <= i <= n,
                n == self.matchers@.len(),
                self.matchers@.len() == old(self).matchers@.len(),
                self.symbols == old(self).symbols,
                self.directory == old(self).directory,
                self.inv(),
                forall|j: int|
                    i <= j < n ==> #[trigger] self.matchers@[j] == old(self).matchers@[j],
                forall|j: int|
                    0 <= j < i ==> {
                        let m0 = old(self).matchers@[j];
                        let m1 = #[trigger] self.matchers@[j];
                        let run = aq_run(
                            m0.bid_orders(),
                            m0.ask_orders(),
                            m0.best_bid,
                            m0.best_ask,
                            100,
                        );
                        &&& m1.bid_orders() == run.0
                        &&& m1.ask_orders() == run.1
                        &&& (run.2 > 0 ==> m1.best_bid is None && m1.best_ask is None)
                        &&& (run.2 == 0 ==> m1.best_bid == m0.best_bid && m1.best_ask
                            == m0.best_ask)
                    },
            decreases n - i,
        {
            let m = &mut self.matchers[i];
            m.match_orders();
            i = i + 1;
        }
        proof {
            assert forall|s: SymbolId| old(self).symbols_spec().contains(s) implies {
                let m0 = old(self).matcher_of(s);
                let m1 = #[trigger] self.matcher_of(s);
                let run = aq_run(m0.bid_orders(), m0.ask_orders(), m0.best_bid, m0.best_ask, 100);
                &&& m1.bid_orders() == run.0
                &&& m1.ask_orders() == run.1
                &&& (run.2 > 0 ==> m1.best_bid is None && m1.best_ask is None)
                &&& (run.2 == 0 ==> m1.best_bid == m0.best_bid && m1.best_ask == m0.best_ask)
            } by {
                old(self).directory.lemma_slot_in_range(s);
            }
        }
    }

    fn add_orders_batch_fast(&mut self, orders: &[Order]) -> (counts: (u32, u32))
        ensures
            Self::batch_effect(*old(self), *final(self), orders@, counts.0 as int),
    {
        let ghost offer = |st: (Seq<Order>, Seq<Order>, Option<u64>, Option<u64>), o: Order|
            ring_book_offer(st, o);
        let ghost st0 = self.states();
        let ghost syms = self.symbols_spec();
        let mut successful: u32 = 0;
        let mut failed: u32 = 0;
        let n = orders.len();
        let mut k: usize = 0;
        proof {
            assert(orders@.subrange(0, n as int) =~= orders@);
        }
        while k < n
            invariant
                0 <= k <= n,
                n == orders@.len(),
                n <= u32::MAX,
                successful + failed == k,
                self.inv(),
                self.symbols_spec() == old(self).symbols_spec(),
                self.symbols == old(self).symbols,
                self.directory == old(self).directory,
                self.matchers@.len() == old(self).matchers@.len(),
                syms == old(self).symbols_spec(),
                st0 == old(self).states(),
                offer == (|st: (Seq<Order>, Seq<Order>, Option<u64>, Option<u64>), o: Order|
                    ring_book_offer(st, o)),
                crate::order_book_trait::batch_fold(st0, syms, orders@, offer).0
                    == crate::order_book_trait::batch_fold(
                    self.states(),
                    syms,
                    orders@.subrange(k as int, n as int),
                    offer,
                ).0,
                crate::order_book_trait::batch_fold(st0, syms, orders@, offer).1 == successful
                    + crate::order_book_trait::batch_fold(
                    self.states(),
                    syms,
                    orders@.subrange(k as int, n as int),
                    offer,
                ).1,
            decreases n - k,
        {
            let ghost pre = self.states();
            let ghost suffix = orders@.subrange(k as int, n as int);
            proof {
                assert(suffix[0] == orders@[k as int]);
                assert(suffix.drop_first() =~= orders@.subrange(k as int + 1, n as int));
            }
            let order = orders[k];
            if self.add_order_fast(order) {
                successful = successful + 1;
            } else {
                failed = failed + 1;
            }
            proof {
                if syms.contains(order.symbol) {
                    assert(self.states() =~= pre.insert(
                        order.symbol,
                        ring_book_offer(pre[order.symbol], order).0,
                    ));
                } else {
                    assert(self.states() =~= pre);
                }
            }
            k = k + 1;
        }
        proof {
            assert(orders@.subrange(n as int, n as int) =~= Seq::<Order>::empty());
        }
        (successful, failed)
    }

    fn add_orders_batch_unchecked(&mut self, orders: &[Order]) -> (added: u32)
        ensures
            Self::batch_force_effect(*old(self), *final(self), orders@),
    {
        let ghost force = |st: (Seq<Order>, Seq<Order>, Option<u64>, Option<u64>), o: Order|
            ring_book_force(st, o);
        let ghost st0 = self.states();
        let ghost syms = self.symbols_spec();
        let n = orders.len();
        let mut k: usize = 0;
        proof {
            assert(orders@.subrange(0, n as int) =~= orders@);
        }
        while k < n
            invariant
                0 <= k <= n,
                n == orders@.len(),
                n <= u32::MAX,
                self.inv(),
                self.symbols_spec() == old(self).symbols_spec(),
                self.symbols == old(self).symbols,
                self.directory == old(self).directory,
                self.matchers@.len() == old(self).matchers@.len(),
                syms == old(self).symbols_spec(),
                st0 == old(self).states(),
                force == (|st: (Seq<Order>, Seq<Order>, Option<u64>, Option<u64>), o: Order|
                    ring_book_force(st, o)),
                forall|j: int|
                    0 <= j < orders@.len() ==> old(self).symbols_spec().contains(
                        (#[trigger] orders@[j]).symbol,
                    ),
                crate::order_book_trait::batch_force(st0, syms, orders@, force)
                    == crate::order_book_trait::batch_force(
                    self.states(),
                    syms,
                    orders@.subrange(k as int, n as int),
                    force,
                ),
            decreases n - k,
        {
            let ghost pre = self.states();
            let ghost suffix = orders@.subrange(k as int, n as int);
            proof {
                assert(suffix[0] == orders@[k as int]);
                assert(suffix.drop_first() =~= orders@.subrange(k as int + 1, n as int));
            }
            let order = orders[k];
            self.add_order_unchecked(order);
            proof {
                assert(self.states() =~= pre.insert(
                    order.symbol,
                    ring_book_force(pre[order.symbol], order),
                ));
            }
            k = k + 1;
        }
        proof {
            assert(orders@.subrange(n as int, n as int) =~= Seq::<Order>::empty());
        }
        n as u32
    }

    fn get_best_prices(&self, symbol: SymbolId) -> (r: Option<(Option<u64>, Option<u64>)>) {
        match self.directory.slot_of(symbol) {
            Some(i) => {
                let m = &self.matchers[i];
                Some(m.get_best_prices())
            },
            None => None,
        }
    }

    fn can_match(&self, symbol: SymbolId) -> (r: bool) {
        match self.directory.slot_of(symbol) {
            Some(i) => {
                let m = &self.matchers[i];
                m.can_match()
            },
            None => false,
        }
    }

    fn is_valid_symbol(&self, symbol: SymbolId) -> (r: bool) {
        let r = crate::fxmap::fx_set_contains(&self.symbols, symbol);
        r
    }

    fn get_symbols(&self) -> (r: &rustc_hash::FxHashSet<SymbolId>) {
        &self.symbols
    }

    fn order_book_type(&self) -> (r: OrderBookType) {
        OrderBookType::ArrayQueue
    }
}

} // verus!
