//! The priority-queue backend: each side keeps its resting orders sorted by
//! urgency (bids by ascending price, asks by descending price, equal prices
//! broken in favour of the lower identifier), the most urgent order last.
//! Cached best prices are updated eagerly on every add and refreshed on
//! every pop, so they always agree with the queue tops.

use vstd::prelude::*;

use crate::order::{Order, OrderSide, SymbolId};
use crate::order_book::OrderBookType;
use crate::order_book_trait::{OrderBookError, OrderBookTrait};
use crate::symbol_index::SymbolIndex;

verus! {

/// Bid urgency: `y` matches no later than `x` — the higher price wins, the
/// lower identifier breaking ties.
pub open spec fn bid_le(x: Order, y: Order) -> bool {
    x.price < y.price || (x.price == y.price && x.id >= y.id)
}

/// Ask urgency: `y` matches no later than `x` — the lower price wins, the
/// lower identifier breaking ties.
pub open spec fn ask_le(x: Order, y: Order) -> bool {
    x.price > y.price || (x.price == y.price && x.id >= y.id)
}

/// Sorted with the most urgent bid last.
pub open spec fn sorted_by_bid(s: Seq<Order>) -> bool {
    forall|i: int, j: int| 0 <= i < j < s.len() ==> bid_le(#[trigger] s[i], #[trigger] s[j])
}

/// Sorted with the most urgent ask last.
pub open spec fn sorted_by_ask(s: Seq<Order>) -> bool {
    forall|i: int, j: int| 0 <= i < j < s.len() ==> ask_le(#[trigger] s[i], #[trigger] s[j])
}

/// A bid side after an order is queued: the order stands after every order
/// at least as urgent as itself and before the rest.
pub open spec fn bid_insert(s: Seq<Order>, o: Order) -> Seq<Order>
    decreases s.len(),
{
    if s.len() > 0 && bid_le(s[0], o) {
        seq![s[0]] + bid_insert(s.drop_first(), o)
    } else {
        seq![o] + s
    }
}

/// An ask side after an order is queued.
pub open spec fn ask_insert(s: Seq<Order>, o: Order) -> Seq<Order>
    decreases s.len(),
{
    if s.len() > 0 && ask_le(s[0], o) {
        seq![s[0]] + ask_insert(s.drop_first(), o)
    } else {
        seq![o] + s
    }
}

/// A cross exists: both sides rest orders and the most urgent bid's price is
/// at least the most urgent ask's price.
pub open spec fn pq_cross(bids: Seq<Order>, asks: Seq<Order>) -> bool {
    bids.len() > 0 && asks.len() > 0 && bids.last().price >= asks.last().price
}

/// Both sides after matching runs to quiescence (or the fuel runs out): the
/// most urgent order of each side is consumed, one pair per step, while the
/// sides cross.
pub open spec fn pq_run(bids: Seq<Order>, asks: Seq<Order>, fuel: nat) -> (Seq<Order>, Seq<Order>)
    decreases fuel,
{
    if fuel > 0 && pq_cross(bids, asks) {
        pq_run(bids.drop_last(), asks.drop_last(), (fuel - 1) as nat)
    } else {
        (bids, asks)
    }
}

/// The pairs consumed by `pq_run`, most urgent bid with most urgent ask, in
/// matching order.
pub open spec fn pq_matched_pairs(bids: Seq<Order>, asks: Seq<Order>, fuel: nat) -> Seq<
    (Order, Order),
>
    decreases fuel,
{
    if fuel > 0 && pq_cross(bids, asks) {
        seq![(bids.last(), asks.last())] + pq_matched_pairs(
            bids.drop_last(),
            asks.drop_last(),
            (fuel - 1) as nat,
        )
    } else {
        Seq::empty()
    }
}

/// The per-symbol matcher of the priority-queue backend: one urgency-sorted
/// queue per side and an eagerly maintained best price per side.
pub struct PriorityQueueMatcher {
    pub bids: Vec<Order>,
    pub asks: Vec<Order>,
    pub best_bid: Option<u64>,
    pub best_ask: Option<u64>,
}

impl PriorityQueueMatcher {
    /// Both sides sorted for their urgency, orders on their own side, and
    /// the cached best prices agreeing with the queue tops.
    pub open spec fn wf(self) -> bool {
        &&& sorted_by_bid(self.bids@)
        &&& sorted_by_ask(self.asks@)
        &&& forall|i: int| 0 <= i < self.bids@.len() ==> (#[trigger] self.bids@[i]).is_buy()
        &&& forall|i: int| 0 <= i < self.asks@.len() ==> (#[trigger] self.asks@[i]).is_sell()
        &&& self.best_bid == (if self.bids@.len() == 0 {
            Option::<u64>::None
        } else {
            Some(self.bids@.last().price)
        })
        &&& self.best_ask == (if self.asks@.len() == 0 {
            Option::<u64>::None
        } else {
            Some(self.asks@.last().price)
        })
    }

    /// An empty matcher.
    pub fn new() -> (m: Self)
        ensures
            m.wf(),
            m.bids@ == Seq::<Order>::empty(),
            m.asks@ == Seq::<Order>::empty(),
    {
        PriorityQueueMatcher { bids: Vec::new(), asks: Vec::new(), best_bid: None, best_ask: None }
    }

    /// Queues the order on its side and pushes the cached best price towards
    /// it (maximum for bids, minimum for asks).
    pub fn add_order(&mut self, order: Order)
        requires
            old(self).wf(),
        ensures
            final(self).wf(),
            order.is_buy() ==> final(self).bids@ == bid_insert(old(self).bids@, order)
                && final(self).asks@ == old(self).asks@,
            order.is_sell() ==> final(self).asks@ == ask_insert(old(self).asks@, order)
                && final(self).bids@ == old(self).bids@,
    {
        match order.order_type {
            OrderSide::Buy => {
                let price = order.price;
                insert_bid(&mut self.bids, order);
                self.best_bid = match self.best_bid {
                    Some(current) => if current >= price {
                        Some(current)
                    } else {
                        Some(price)
                    },
                    None => Some(price),
                };
            },
            OrderSide::Sell => {
                let price = order.price;
                insert_ask(&mut self.asks, order);
                self.best_ask = match self.best_ask {
                    Some(current) => if current <= price {
                        Some(current)
                    } else {
                        Some(price)
                    },
                    None => Some(price),
                };
            },
        }
    }

    /// Whether the cached best bid price is at least the cached best ask
    /// price; under well-formedness the caches agree with the queue tops.
    pub fn can_match(&self) -> (r: bool)
        requires
            self.wf(),
        ensures
            r == pq_cross(self.bids@, self.asks@),
    {
        match (self.best_bid, self.best_ask) {
            (Some(bid), Some(ask)) => bid >= ask,
            _ => false,
        }
    }

    /// One matching pass, run to quiescence: while the cached best bid is at
    /// least the cached best ask, one order is popped from each side and the
    /// caches are refreshed from the new tops; afterwards no cross remains.
    pub fn match_orders(&mut self)
        requires
            old(self).wf(),
        ensures
            final(self).wf(),
            (final(self).bids@, final(self).asks@) == pq_run(
                old(self).bids@,
                old(self).asks@,
                old(self).bids@.len() + old(self).asks@.len(),
            ),
            !pq_cross(final(self).bids@, final(self).asks@),
    {
        let ghost b0 = self.bids@;
        let ghost a0 = self.asks@;
        let ghost total0: nat = b0.len() + a0.len();
        let ghost mut fuel: nat = total0;
        loop
            invariant
                self.wf(),
                2 * fuel >= self.bids@.len() + self.asks@.len(),
                pq_run(b0, a0, total0) == pq_run(self.bids@, self.asks@, fuel),
            ensures
                self.wf(),
                (self.bids@, self.asks@) == pq_run(b0, a0, total0),
                !pq_cross(self.bids@, self.asks@),
            decreases fuel,
        {
            if !self.can_match() {
                break;
            }
            let bid = self.bids.pop();
            let ask = self.asks.pop();
            match (bid, ask) {
                (Some(_), Some(_)) => {
                    let nb = self.bids.len();
                    self.best_bid = if nb == 0 {
                        None
                    } else {
                        Some(self.bids[nb - 1].price)
                    };
                    let na = self.asks.len();
                    self.best_ask = if na == 0 {
                        None
                    } else {
                        Some(self.asks[na - 1].price)
                    };
                    proof {
                        fuel = (fuel - 1) as nat;
                    }
                },
                _ => {
                    break;
                },
            }
        }
    }

    /// Both best prices, re-derived from the queue tops rather than read
    /// from the caches.
    pub fn get_best_prices(&self) -> (r: (Option<u64>, Option<u64>))
        requires
            self.wf(),
        ensures
            r == (
                if self.bids@.len() == 0 {
                    Option::<u64>::None
                } else {
                    Some(self.bids@.last().price)
                },
                if self.asks@.len() == 0 {
                    Option::<u64>::None
                } else {
                    Some(self.asks@.last().price)
                },
            ),
    {
        let nb = self.bids.len();
        let best_bid = if nb == 0 {
            None
        } else {
            Some(self.bids[nb - 1].price)
        };
        let na = self.asks.len();
        let best_ask = if na == 0 {
            None
        } else {
            Some(self.asks[na - 1].price)
        };
        (best_bid, best_ask)
    }
}

/// Relates `bid_insert` to the position a linear scan finds.
proof fn lemma_bid_insert_at(s: Seq<Order>, o: Order, i: int)
    requires
        0 <= i <= s.len(),
        forall|j: int| 0 <= j < i ==> bid_le(#[trigger] s[j], o),
        i < s.len() ==> !bid_le(s[i], o),
    ensures
        bid_insert(s, o) == s.subrange(0, i) + seq![o] + s.subrange(i, s.len() as int),
    decreases s.len(),
{
    if i == 0 {
        if s.len() == 0 || !bid_le(s[0], o) {
            assert(bid_insert(s, o) =~= s.subrange(0, 0) + seq![o] + s.subrange(
                0,
                s.len() as int,
            ));
        }
    } else {
        lemma_bid_insert_at(s.drop_first(), o, i - 1);
        assert(seq![s[0]] + (s.drop_first().subrange(0, i - 1) + seq![o] + s.drop_first().subrange(
            i - 1,
            s.len() - 1,
        )) =~= s.subrange(0, i) + seq![o] + s.subrange(i, s.len() as int));
    }
}

/// Relates `ask_insert` to the position a linear scan finds.
proof fn lemma_ask_insert_at(s: Seq<Order>, o: Order, i: int)
    requires
        0 <= i <= s.len(),
        forall|j: int| 0 <= j < i ==> ask_le(#[trigger] s[j], o),
        i < s.len() ==> !ask_le(s[i], o),
    ensures
        ask_insert(s, o) == s.subrange(0, i) + seq![o] + s.subrange(i, s.len() as int),
    decreases s.len(),
{
    if i == 0 {
        if s.len() == 0 || !ask_le(s[0], o) {
            assert(ask_insert(s, o) =~= s.subrange(0, 0) + seq![o] + s.subrange(
                0,
                s.len() as int,
            ));
        }
    } else {
        lemma_ask_insert_at(s.drop_first(), o, i - 1);
        assert(seq![s[0]] + (s.drop_first().subrange(0, i - 1) + seq![o] + s.drop_first().subrange(
            i - 1,
            s.len() - 1,
        )) =~= s.subrange(0, i) + seq![o] + s.subrange(i, s.len() as int));
    }
}

/// Queues a bid at its sorted position, scanning from the least urgent end.
fn insert_bid(bids: &mut Vec<Order>, order: Order)
    requires
        sorted_by_bid(old(bids)@),
    ensures
        final(bids)@ == bid_insert(old(bids)@, order),
        sorted_by_bid(final(bids)@),
        final(bids)@.len() == old(bids)@.len() + 1,
        forall|k: int|
            0 <= k < final(bids)@.len() ==> final(bids)@[k] == order || old(bids)@.contains(
                #[trigger] final(bids)@[k],
            ),
        old(bids)@.len() == 0 ==> final(bids)@.last() == order,
        old(bids)@.len() > 0 ==> final(bids)@.last().price == (if order.price
            >= old(bids)@.last().price {
            order.price
        } else {
            old(bids)@.last().price
        }),
{
    let ghost s0 = bids@;
    let mut i: usize = 0;
    while i < bids.len() && (bids[i].price < order.price || (bids[i].price == order.price
        && bids[i].id >= order.id))
        invariant
            0 <= i <= bids@.len(),
            forall|j: int| 0 <= j < i ==> bid_le(#[trigger] bids@[j], order),
            *bids == *old(bids),
        decreases bids@.len() - i,
    {
        i = i + 1;
    }
    proof {
        lemma_bid_insert_at(s0, order, i as int);
    }
    bids.insert(i, order);
    proof {
        assert(bids@ =~= s0.subrange(0, i as int) + seq![order] + s0.subrange(
            i as int,
            s0.len() as int,
        ));
    }
}

/// Queues an ask at its sorted position, scanning from the least urgent end.
fn insert_ask(asks: &mut Vec<Order>, order: Order)
    requires
        sorted_by_ask(old(asks)@),
    ensures
        final(asks)@ == ask_insert(old(asks)@, order),
        sorted_by_ask(final(asks)@),
        final(asks)@.len() == old(asks)@.len() + 1,
        forall|k: int|
            0 <= k < final(asks)@.len() ==> final(asks)@[k] == order || old(asks)@.contains(
                #[trigger] final(asks)@[k],
            ),
        old(asks)@.len() == 0 ==> final(asks)@.last() == order,
        old(asks)@.len() > 0 ==> final(asks)@.last().price == (if order.price
            <= old(asks)@.last().price {
            order.price
        } else {
            old(asks)@.last().price
        }),
{
    let ghost s0 = asks@;
    let mut i: usize = 0;
    while i < asks.len() && (asks[i].price > order.price || (asks[i].price == order.price
        && asks[i].id >= order.id))
        invariant
            0 <= i <= asks@.len(),
            forall|j: int| 0 <= j < i ==> ask_le(#[trigger] asks@[j], order),
            *asks == *old(asks),
        decreases asks@.len() - i,
    {
        i = i + 1;
    }
    proof {
        lemma_ask_insert_at(s0, order, i as int);
    }
    asks.insert(i, order);
    proof {
        assert(asks@ =~= s0.subrange(0, i as int) + seq![order] + s0.subrange(
            i as int,
            s0.len() as int,
        ));
    }
}

/// Every pair consumed by a matching pass crosses: the bid order's price is
/// at least the ask order's price.
pub proof fn lemma_pq_matched_pairs_cross(bids: Seq<Order>, asks: Seq<Order>, fuel: nat)
    ensures
        forall|k: int|
            0 <= k < pq_matched_pairs(bids, asks, fuel).len() ==> (#[trigger] pq_matched_pairs(
                bids,
                asks,
                fuel,
            )[k]).0.price >= pq_matched_pairs(bids, asks, fuel)[k].1.price,
    decreases fuel,
{
    if fuel > 0 && pq_cross(bids, asks) {
        lemma_pq_matched_pairs_cross(bids.drop_last(), asks.drop_last(), (fuel - 1) as nat);
        assert(pq_matched_pairs(bids, asks, fuel)[0] == (bids.last(), asks.last()));
    }
}

/// Price-time priority of the priority-queue backend: among two equal-priced
/// bids in a well-formed queue, the one with the lower identifier stands
/// nearer the matching end, whichever was queued first. Matching consumes
/// the queue from that end.
pub proof fn lemma_pq_equal_price_id_order(bids: Seq<Order>, i: int, j: int)
    requires
        sorted_by_bid(bids),
        0 <= i < j < bids.len(),
        bids[i].price == bids[j].price,
    ensures
        bids[i].id >= bids[j].id,
{
}

/// The priority-queue book: one matcher per accepted symbol.
pub struct PriorityQueueOrderBook {
    pub symbols: rustc_hash::FxHashSet<SymbolId>,
    pub directory: SymbolIndex,
    pub matchers: Vec<PriorityQueueMatcher>,
}

impl PriorityQueueOrderBook {
    /// The matcher owning an accepted symbol's resting orders.
    pub open spec fn matcher_of(&self, sym: SymbolId) -> PriorityQueueMatcher {
        self.matchers@[self.directory.spec_slot(sym)]
    }

    /// Each accepted symbol's queues, as a map for the batch contracts.
    pub open spec fn states(&self) -> Map<SymbolId, (Seq<Order>, Seq<Order>)> {
        Map::new(
            |s: SymbolId| self.symbols@.contains(s),
            |s: SymbolId| (self.matcher_of(s).bids@, self.matcher_of(s).asks@),
        )
    }

    /// How one add (checked, fast or unchecked) evolves the book: an unknown
    /// symbol leaves it untouched; otherwise the order is queued at its
    /// sorted position on its side of its symbol's matcher, and everything
    /// else stays as it was.
    pub open spec fn add_effect(pre: Self, post: Self, order: Order) -> bool {
        &&& post.symbols == pre.symbols
        &&& post.directory == pre.directory
        &&& post.matchers@.len() == pre.matchers@.len()
        &&& if pre.symbols@.contains(order.symbol) {
            &&& (order.is_buy() ==> post.matcher_of(order.symbol).bids@ == bid_insert(
                pre.matcher_of(order.symbol).bids@,
                order,
            ) && post.matcher_of(order.symbol).asks@ == pre.matcher_of(order.symbol).asks@)
            &&& (order.is_sell() ==> post.matcher_of(order.symbol).asks@ == ask_insert(
                pre.matcher_of(order.symbol).asks@,
                order,
            ) && post.matcher_of(order.symbol).bids@ == pre.matcher_of(order.symbol).bids@)
            &&& forall|s: SymbolId|
                pre.symbols@.contains(s) && s != order.symbol ==> #[trigger] post.matcher_of(s)
                    == pre.matcher_of(s)
        } else {
            post == pre
        }
    }

    /// How one matching pass evolves the book: every symbol's matcher runs
    /// to quiescence, and nothing else changes.
    pub open spec fn match_effect(pre: Self, post: Self) -> bool {
        &&& post.symbols == pre.symbols
        &&& post.directory == pre.directory
        &&& post.matchers@.len() == pre.matchers@.len()
        &&& forall|s: SymbolId|
            pre.symbols@.contains(s) ==> {
                &&& ((#[trigger] post.matcher_of(s)).bids@, post.matcher_of(s).asks@) == pq_run(
                    pre.matcher_of(s).bids@,
                    pre.matcher_of(s).asks@,
                    pre.matcher_of(s).bids@.len() + pre.matcher_of(s).asks@.len(),
                )
                &&& !pq_cross(post.matcher_of(s).bids@, post.matcher_of(s).asks@)
            }
    }

    /// How one fast batch evolves the book: the orders offered in sequence
    /// to their symbols' queues, `taken` of them accepted.
    pub open spec fn batch_effect(pre: Self, post: Self, orders: Seq<Order>, taken: int) -> bool {
        &&& post.symbols == pre.symbols
        &&& post.directory == pre.directory
        &&& post.matchers@.len() == pre.matchers@.len()
        &&& post.states() == crate::order_book_trait::batch_fold(
            pre.states(),
            pre.symbols@,
            orders,
            |st: (Seq<Order>, Seq<Order>), o: Order| pq_book_offer(st, o),
        ).0
        &&& taken == crate::order_book_trait::batch_fold(
            pre.states(),
            pre.symbols@,
            orders,
            |st: (Seq<Order>, Seq<Order>), o: Order| pq_book_offer(st, o),
        ).1
    }

    /// How one unchecked batch evolves the book: every order joins its
    /// symbol's queues in sequence.
    pub open spec fn batch_force_effect(pre: Self, post: Self, orders: Seq<Order>) -> bool {
        &&& post.symbols == pre.symbols
        &&& post.directory == pre.directory
        &&& post.matchers@.len() == pre.matchers@.len()
        &&& post.states() == crate::order_book_trait::batch_force(
            pre.states(),
            pre.symbols@,
            orders,
            |st: (Seq<Order>, Seq<Order>), o: Order| pq_book_offer(st, o).0,
        )
    }
}

/// One order offered to one symbol's queues: queued at its sorted position
/// on its side, never refused.
pub open spec fn pq_book_offer(st: (Seq<Order>, Seq<Order>), o: Order) -> (
    (Seq<Order>, Seq<Order>),
    bool,
) {
    if o.is_buy() {
        ((bid_insert(st.0, o), st.1), true)
    } else {
        ((st.0, ask_insert(st.1, o)), true)
    }
}

impl OrderBookTrait for PriorityQueueOrderBook {
    open spec fn inv(&self) -> bool {
        &&& self.directory.wf()
        &&& self.symbols@ == self.directory.symbols()
        &&& self.matchers@.len() == self.directory.ids@.len()
        &&& forall|i: int| 0 <= i < self.matchers@.len() ==> (#[trigger] self.matchers@[i]).wf()
    }

    open spec fn symbols_spec(&self) -> Set<SymbolId> {
        self.symbols@
    }

    /// This backend refuses no order on capacity grounds.
    open spec fn accepts_spec(&self, order: Order) -> bool {
        true
    }

    open spec fn best_prices_spec(&self, symbol: SymbolId) -> (Option<u64>, Option<u64>) {
        (
            if self.matcher_of(symbol).bids@.len() == 0 {
                Option::<u64>::None
            } else {
                Some(self.matcher_of(symbol).bids@.last().price)
            },
            if self.matcher_of(symbol).asks@.len() == 0 {
                Option::<u64>::None
            } else {
                Some(self.matcher_of(symbol).asks@.last().price)
            },
        )
    }

    open spec fn can_match_spec(&self, symbol: SymbolId) -> bool {
        pq_cross(self.matcher_of(symbol).bids@, self.matcher_of(symbol).asks@)
    }

    open spec fn book_type_spec() -> OrderBookType {
        OrderBookType::PriorityQueue
    }

    fn new(symbols: rustc_hash::FxHashSet<SymbolId>) -> (r: Self) {
        let directory = SymbolIndex::new(&symbols);
        let n = directory.len();
        let mut matchers: Vec<PriorityQueueMatcher> = Vec::new();
        let mut i: usize = 0;
        while i < n
            invariant
                0 <= i <= n,
                n == directory.ids@.len(),
                matchers@.len() == i,
                forall|j: int|
                    0 <= j < i ==> (#[trigger] matchers@[j]).wf() && matchers@[j].bids@ == Seq::<
                        Order,
                    >::empty() && matchers@[j].asks@ == Seq::<Order>::empty(),
            decreases n - i,
        {
            matchers.push(PriorityQueueMatcher::new());
            i = i + 1;
        }
        let r = PriorityQueueOrderBook { symbols, directory, matchers };
        proof {
            assert forall|sym: SymbolId| r.symbols_spec().contains(sym) implies #[trigger] r.best_prices_spec(
                sym,
            ) == (Option::<u64>::None, Option::<u64>::None) && !r.can_match_spec(sym) by {
                r.directory.lemma_slot_in_range(sym);
            }
        }
        r
    }

    fn add_order(&mut self, order: Order) -> (r: Result<bool, OrderBookError>)
        ensures
            Self::add_effect(*old(self), *final(self), order),
    {
        match self.directory.slot_of(order.symbol) {
            Some(i) => {
                let m = &mut self.matchers[i];
                m.add_order(order);
                proof {
                    assert forall|s: SymbolId|
                        old(self).symbols_spec().contains(s) && s != order.symbol
                        implies #[trigger] self.matcher_of(s) == old(self).matcher_of(s) by {
                        self.directory.lemma_distinct_slots(s, order.symbol);
                        self.directory.lemma_slot_in_range(s);
                    }
                }
                Ok(true)
            },
            None => Err(OrderBookError::InvalidSymbol),
        }
    }

    fn add_order_fast(&mut self, order: Order) -> (accepted: bool)
        ensures
            Self::add_effect(*old(self), *final(self), order),
    {
        match self.directory.slot_of(order.symbol) {
            Some(i) => {
                let m = &mut self.matchers[i];
                m.add_order(order);
                proof {
                    assert forall|s: SymbolId|
                        old(self).symbols_spec().contains(s) && s != order.symbol
                        implies #[trigger] self.matcher_of(s) == old(self).matcher_of(s) by {
                        self.directory.lemma_distinct_slots(s, order.symbol);
                        self.directory.lemma_slot_in_range(s);
                    }
                }
                true
            },
            None => false,
        }
    }

    fn add_order_unchecked(&mut self, order: Order)
        ensures
            Self::add_effect(*old(self), *final(self), order),
    {
        match self.directory.slot_of(order.symbol) {
            Some(i) => {
                let m = &mut self.matchers[i];
                m.add_order(order);
                proof {
                    assert forall|s: SymbolId|
                        old(self).symbols_spec().contains(s) && s != order.symbol
                        implies #[trigger] self.matcher_of(s) == old(self).matcher_of(s) by {
                        self.directory.lemma_distinct_slots(s, order.symbol);
                        self.directory.lemma_slot_in_range(s);
                    }
                }
            },
            None => {
                proof {
                    assert(false);
                }
            },
        }
    }

    fn match_orders(&mut self)
        ensures
            Self::match_effect(*old(self), *final(self)),
    {
        let n = self.matchers.len();
        let mut i: usize = 0;
        while i < n
            invariant
                0 <= i <= n,
                n == self.matchers@.len(),
                self.matchers@.len() == old(self).matchers@.len(),
                self.symbols == old(self).symbols,
                self.directory == old(self).directory,
                self.inv(),
                forall|j: int|
                    i <= j < n ==> #[trigger] self.matchers@[j] == old(self).matchers@[j],
                forall|j: int|
                    0 <= j < i ==> {
                        &&& (
                        (#[trigger] self.matchers@[j]).bids@,
                        self.matchers@[j].asks@,
                        ) == pq_run(
                            old(self).matchers@[j].bids@,
                            old(self).matchers@[j].asks@,
                            old(self).matchers@[j].bids@.len() + old(self).matchers@[j].asks@.len(),
                        )
                        &&& !pq_cross(self.matchers@[j].bids@, self.matchers@[j].asks@)
                    },
            decreases n - i,
        {
            let m = &mut self.matchers[i];
            m.match_orders();
            i = i + 1;
        }
        proof {
            assert forall|s: SymbolId| old(self).symbols_spec().contains(s) implies {
                &&& (
                (#[trigger] self.matcher_of(s)).bids@,
                self.matcher_of(s).asks@,
                ) == pq_run(
                    old(self).matcher_of(s).bids@,
                    old(self).matcher_of(s).asks@,
                    old(self).matcher_of(s).bids@.len() + old(self).matcher_of(s).asks@.len(),
                )
                &&& !pq_cross(self.matcher_of(s).bids@, self.matcher_of(s).asks@)
            } by {
                old(self).directory.lemma_slot_in_range(s);
            }
        }
    }

    fn add_orders_batch_fast(&mut self, orders: &[Order]) -> (counts: (u32, u32))
        ensures
            Self::batch_effect(*old(self), *final(self), orders@, counts.0 as int),
    {
        let ghost offer = |st: (Seq<Order>, Seq<Order>), o: Order| pq_book_offer(st, o);
        let ghost st0 = self.states();
        let ghost syms = self.symbols_spec();
        let mut added: u32 = 0;
        let mut rejected: u32 = 0;
        let n = orders.len();
        let mut k: usize = 0;
        proof {
            assert(orders@.subrange(0, n as int) =~= orders@);
        }
        while k < n
            invariant
                0 <= k <= n,
                n == orders@.len(),
                n <= u32::MAX,
                added + rejected == k,
                self.inv(),
                self.symbols_spec() == old(self).symbols_spec(),
                self.symbols == old(self).symbols,
                self.directory == old(self).directory,
                self.matchers@.len() == old(self).matchers@.len(),
                syms == old(self).symbols_spec(),
                st0 == old(self).states(),
                offer == (|st: (Seq<Order>, Seq<Order>), o: Order| pq_book_offer(st, o)),
                crate::order_book_trait::batch_fold(st0, syms, orders@, offer).0
                    == crate::order_book_trait::batch_fold(
                    self.states(),
                    syms,
                    orders@.subrange(k as int, n as int),
                    offer,
                ).0,
                crate::order_book_trait::batch_fold(st0, syms, orders@, offer).1 == added
                    + crate::order_book_trait::batch_fold(
                    self.states(),
                    syms,
                    orders@.subrange(k as int, n as int),
                    offer,
                ).1,
            decreases n - k,
        {
            let ghost pre = self.states();
            let ghost suffix = orders@.subrange(k as int, n as int);
            proof {
                assert(suffix[0] == orders@[k as int]);
                assert(suffix.drop_first() =~= orders@.subrange(k as int + 1, n as int));
            }
            let order = orders[k];
            if self.add_order_fast(order) {
                added = added + 1;
            } else {
                rejected = rejected + 1;
            }
            proof {
                if syms.contains(order.symbol) {
                    assert(self.states() =~= pre.insert(
                        order.symbol,
                        pq_book_offer(pre[order.symbol], order).0,
                    ));
                } else {
                    assert(self.states() =~= pre);
                }
            }
            k = k + 1;
        }
        proof {
            assert(orders@.subrange(n as int, n as int) =~= Seq::<Order>::empty());
        }
        (added, rejected)
    }

    fn add_orders_batch_unchecked(&mut self, orders: &[Order]) -> (added: u32)
        ensures
            Self::batch_force_effect(*old(self), *final(self), orders@),
    {
        let ghost force = |st: (Seq<Order>, Seq<Order>), o: Order| pq_book_offer(st, o).0;
        let ghost st0 = self.states();
        let ghost syms = self.symbols_spec();
        let n = orders.len();
        let mut k: usize = 0;
        let mut added: u32 = 0;
        proof {
            assert(orders@.subrange(0, n as int) =~= orders@);
        }
        while k < n
            invariant
                0 <= k <= n,
                n == orders@.len(),
                n <= u32::MAX,
                added == k,
                self.inv(),
                self.symbols_spec() == old(self).symbols_spec(),
                self.symbols == old(self).symbols,
                self.directory == old(self).directory,
                self.matchers@.len() == old(self).matchers@.len(),
                syms == old(self).symbols_spec(),
                st0 == old(self).states(),
                force == (|st: (Seq<Order>, Seq<Order>), o: Order| pq_book_offer(st, o).0),
                forall|j: int|
                    0 <= j < orders@.len() ==> old(self).symbols_spec().contains(
                        (#[trigger] orders@[j]).symbol,
                    ),
                crate::order_book_trait::batch_force(st0, syms, orders@, force)
                    == crate::order_book_trait::batch_force(
                    self.states(),
                    syms,
                    orders@.subrange(k as int, n as int),
                    force,
                ),
            decreases n - k,
        {
            let ghost pre = self.states();
            let ghost suffix = orders@.subrange(k as int, n as int);
            proof {
                assert(suffix[0] == orders@[k as int]);
                assert(suffix.drop_first() =~= orders@.subrange(k as int + 1, n as int));
            }
            let order = orders[k];
            self.add_order_unchecked(order);
            proof {
                assert(self.states() =~= pre.insert(
                    order.symbol,
                    pq_book_offer(pre[order.symbol], order).0,
                ));
            }
            added = added + 1;
            k = k + 1;
        }
        proof {
            assert(orders@.subrange(n as int, n as int) =~= Seq::<Order>::empty());
        }
        added
    }

    fn get_best_prices(&self, symbol: SymbolId) -> (r: Option<(Option<u64>, Option<u64>)>) {
        match self.directory.slot_of(symbol) {
            Some(i) => {
                let m = &self.matchers[i];
                Some(m.get_best_prices())
            },
            None => None,
        }
    }

    fn can_match(&self, symbol: SymbolId) -> (r: bool) {
        match self.directory.slot_of(symbol) {
            Some(i) => {
                let m = &self.matchers[i];
                m.can_match()
            },
            None => false,
        }
    }

    fn is_valid_symbol(&self, symbol: SymbolId) -> (r: bool) {
        match self.directory.slot_of(symbol) {
            Some(_) => true,
            None => false,
        }
    }

    fn get_symbols(&self) -> (r: &rustc_hash::FxHashSet<SymbolId>) {
        &self.symbols
    }

    fn order_book_type(&self) -> (r: OrderBookType) {
        OrderBookType::PriorityQueue
    }
}

/// Matching consumes exactly the matched pairs: one resting order per side
/// per pair, and nothing else.
pub proof fn lemma_pq_match_consumes_pairs(bids: Seq<Order>, asks: Seq<Order>, fuel: nat)
    ensures
        pq_run(bids, asks, fuel).0.len() + pq_run(bids, asks, fuel).1.len() == bids.len()
            + asks.len() - 2 * pq_matched_pairs(bids, asks, fuel).len(),
    decreases fuel,
{
    if fuel > 0 && pq_cross(bids, asks) {
        lemma_pq_match_consumes_pairs(bids.drop_last(), asks.drop_last(), (fuel - 1) as nat);
    }
}

/// A quiescent book is a fixed point of matching: once no cross remains,
/// further matching passes change nothing.
pub proof fn lemma_pq_match_quiescent_fixed(bids: Seq<Order>, asks: Seq<Order>, fuel: nat)
    requires
        !pq_cross(bids, asks),
    ensures
        pq_run(bids, asks, fuel) == (bids, asks),
{
}

} // verus!
