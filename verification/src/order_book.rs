//! The backend kinds, the runtime-selectable book, and the factories.

use vstd::prelude::*;

use crate::array_queue_order_book::ArrayQueueOrderBook;
use crate::hashmap_order_book::HashMapOrderBook;
use crate::order::{Order, SymbolId};
use crate::order_book_trait::{OrderBookError, OrderBookTrait};
use crate::priority_queue_order_book::PriorityQueueOrderBook;

verus! {

/// The three interchangeable backend kinds.
#[derive(Debug, Clone, Copy, PartialEq, Eq, Structural, Default)]
pub enum OrderBookType {
    #[default]
    HashMap,
    PriorityQueue,
    ArrayQueue,
}

/// A book of a kind chosen at runtime: one of the three backends.
pub enum OrderBook {
    HashMap(HashMapOrderBook),
    PriorityQueue(PriorityQueueOrderBook),
    ArrayQueue(ArrayQueueOrderBook),
}

impl OrderBook {
    /// The carried backend's invariant.
    pub open spec fn inv(&self) -> bool {
        match self {
            OrderBook::HashMap(book) => book.inv(),
            OrderBook::PriorityQueue(book) => book.inv(),
            OrderBook::ArrayQueue(book) => book.inv(),
        }
    }

    /// The symbol set fixed at construction.
    pub open spec fn symbols_spec(&self) -> Set<SymbolId> {
        match self {
            OrderBook::HashMap(book) => book.symbols_spec(),
            OrderBook::PriorityQueue(book) => book.symbols_spec(),
            OrderBook::ArrayQueue(book) => book.symbols_spec(),
        }
    }

    /// Whether the carried backend would take the order on capacity grounds.
    pub open spec fn accepts_spec(&self, order: Order) -> bool {
        match self {
            OrderBook::HashMap(book) => book.accepts_spec(order),
            OrderBook::PriorityQueue(book) => book.accepts_spec(order),
            OrderBook::ArrayQueue(book) => book.accepts_spec(order),
        }
    }

    /// The best prices the carried backend reports.
    pub open spec fn best_prices_spec(&self, symbol: SymbolId) -> (Option<u64>, Option<u64>) {
        match self {
            OrderBook::HashMap(book) => book.best_prices_spec(symbol),
            OrderBook::PriorityQueue(book) => book.best_prices_spec(symbol),
            OrderBook::ArrayQueue(book) => book.best_prices_spec(symbol),
        }
    }

    /// Whether the carried backend reports a cross.
    pub open spec fn can_match_spec(&self, symbol: SymbolId) -> bool {
        match self {
            OrderBook::HashMap(book) => book.can_match_spec(symbol),
            OrderBook::PriorityQueue(book) => book.can_match_spec(symbol),
            OrderBook::ArrayQueue(book) => book.can_match_spec(symbol),
        }
    }

    /// The kind of the carried backend.
    pub open spec fn kind(&self) -> OrderBookType {
        match self {
            OrderBook::HashMap(_) => OrderBookType::HashMap,
            OrderBook::PriorityQueue(_) => OrderBookType::PriorityQueue,
            OrderBook::ArrayQueue(_) => OrderBookType::ArrayQueue,
        }
    }

    /// How one add (checked or fast) evolves the book: the carried
    /// backend's own add evolution, the variant unchanged.
    pub open spec fn add_effect(pre: Self, post: Self, order: Order) -> bool {
        match (pre, post) {
            (OrderBook::HashMap(b0), OrderBook::HashMap(b1)) => HashMapOrderBook::add_effect(
                b0,
                b1,
                order,
            ),
            (
                OrderBook::PriorityQueue(b0),
                OrderBook::PriorityQueue(b1),
            ) => PriorityQueueOrderBook::add_effect(b0, b1, order),
            (OrderBook::ArrayQueue(b0), OrderBook::ArrayQueue(b1)) => ArrayQueueOrderBook::add_effect(
                b0,
                b1,
                order,
            ),
            _ => false,
        }
    }

    /// How one unchecked add evolves the book: the exact backends file the
    /// order as the add path does; the ring-buffer backend force-pushes,
    /// evicting where full.
    pub open spec fn force_effect(pre: Self, post: Self, order: Order) -> bool {
        match (pre, post) {
            (OrderBook::HashMap(b0), OrderBook::HashMap(b1)) => HashMapOrderBook::add_effect(
                b0,
                b1,
                order,
            ),
            (
                OrderBook::PriorityQueue(b0),
                OrderBook::PriorityQueue(b1),
            ) => PriorityQueueOrderBook::add_effect(b0, b1, order),
            (OrderBook::ArrayQueue(b0), OrderBook::ArrayQueue(b1)) => ArrayQueueOrderBook::force_effect(
                b0,
                b1,
                order,
            ),
            _ => false,
        }
    }

    /// How one matching pass evolves the book: the carried backend's own
    /// matching evolution, the variant unchanged.
    pub open spec fn match_effect(pre: Self, post: Self) -> bool {
        match (pre, post) {
            (OrderBook::HashMap(b0), OrderBook::HashMap(b1)) => HashMapOrderBook::match_effect(
                b0,
                b1,
            ),
            (
                OrderBook::PriorityQueue(b0),
                OrderBook::PriorityQueue(b1),
            ) => PriorityQueueOrderBook::match_effect(b0, b1),
            (OrderBook::ArrayQueue(b0), OrderBook::ArrayQueue(b1)) => ArrayQueueOrderBook::match_effect(
                b0,
                b1,
            ),
            _ => false,
        }
    }

    /// How one fast batch evolves the book, `taken` orders accepted.
    pub open spec fn batch_effect(pre: Self, post: Self, orders: Seq<Order>, taken: int) -> bool {
        match (pre, post) {
            (OrderBook::HashMap(b0), OrderBook::HashMap(b1)) => HashMapOrderBook::batch_effect(
                b0,
                b1,
                orders,
                taken,
            ),
            (
                OrderBook::PriorityQueue(b0),
                OrderBook::PriorityQueue(b1),
            ) => PriorityQueueOrderBook::batch_effect(b0, b1, orders, taken),
            (OrderBook::ArrayQueue(b0), OrderBook::ArrayQueue(b1)) => ArrayQueueOrderBook::batch_effect(
                b0,
                b1,
                orders,
                taken,
            ),
            _ => false,
        }
    }

    /// How one unchecked batch evolves the book.
    pub open spec fn batch_force_effect(pre: Self, post: Self, orders: Seq<Order>) -> bool {
        match (pre, post) {
            (OrderBook::HashMap(b0), OrderBook::HashMap(b1)) => HashMapOrderBook::batch_force_effect(
                b0,
                b1,
                orders,
            ),
            (
                OrderBook::PriorityQueue(b0),
                OrderBook::PriorityQueue(b1),
            ) => PriorityQueueOrderBook::batch_force_effect(b0, b1, orders),
            (
                OrderBook::ArrayQueue(b0),
                OrderBook::ArrayQueue(b1),
            ) => ArrayQueueOrderBook::batch_force_effect(b0, b1, orders),
            _ => false,
        }
    }

    /// The validated entry point of the carried backend.
    pub fn add_order(&mut self, order: Order) -> (r: Result<bool, OrderBookError>)
        requires
            old(self).inv(),
        ensures
            final(self).inv(),
            final(self).symbols_spec() == old(self).symbols_spec(),
            final(self).kind() == old(self).kind(),
            r is Err <==> !old(self).symbols_spec().contains(order.symbol),
            !old(self).symbols_spec().contains(order.symbol) ==> r == Err::<
                bool,
                OrderBookError,
            >(OrderBookError::InvalidSymbol) && *final(self) == *old(self),
            r is Ok ==> r == Ok::<bool, OrderBookError>(old(self).accepts_spec(order)),
            Self::add_effect(*old(self), *final(self), order),
    {
        match self {
            OrderBook::HashMap(book) => book.add_order(order),
            OrderBook::PriorityQueue(book) => book.add_order(order),
            OrderBook::ArrayQueue(book) => book.add_order(order),
        }
    }

    /// The fast entry point of the carried backend.
    pub fn add_order_fast(&mut self, order: Order) -> (accepted: bool)
        requires
            old(self).inv(),
        ensures
            final(self).inv(),
            final(self).symbols_spec() == old(self).symbols_spec(),
            final(self).kind() == old(self).kind(),
            accepted == (old(self).symbols_spec().contains(order.symbol) && old(
                self,
            ).accepts_spec(order)),
            !old(self).symbols_spec().contains(order.symbol) ==> *final(self) == *old(self),
            Self::add_effect(*old(self), *final(self), order),
    {
        match self {
            OrderBook::HashMap(book) => book.add_order_fast(order),
            OrderBook::PriorityQueue(book) => book.add_order_fast(order),
            OrderBook::ArrayQueue(book) => book.add_order_fast(order),
        }
    }

    /// The unchecked entry point of the carried backend; the caller
    /// guarantees the symbol is valid.
    pub fn add_order_unchecked(&mut self, order: Order)
        requires
            old(self).inv(),
            old(self).symbols_spec().contains(order.symbol),
        ensures
            final(self).inv(),
            final(self).symbols_spec() == old(self).symbols_spec(),
            final(self).kind() == old(self).kind(),
            Self::force_effect(*old(self), *final(self), order),
    {
        match self {
            OrderBook::HashMap(book) => book.add_order_unchecked(order),
            OrderBook::PriorityQueue(book) => book.add_order_unchecked(order),
            OrderBook::ArrayQueue(book) => book.add_order_unchecked(order),
        }
    }

    /// One matching pass of the carried backend. The exact backends leave no
    /// cross behind; the ring-buffer backend's pass is bounded and may.
    pub fn match_orders(&mut self)
        requires
            old(self).inv(),
        ensures
            final(self).inv(),
            final(self).symbols_spec() == old(self).symbols_spec(),
            final(self).kind() == old(self).kind(),
            old(self).kind() != OrderBookType::ArrayQueue ==> forall|s: SymbolId|
                old(self).symbols_spec().contains(s) ==> !(#[trigger] final(self).can_match_spec(
                    s,
                )),
            Self::match_effect(*old(self), *final(self)),
    {
        match self {
            OrderBook::HashMap(book) => book.match_orders(),
            OrderBook::PriorityQueue(book) => book.match_orders(),
            OrderBook::ArrayQueue(book) => book.match_orders(),
        }
    }

    /// Repeated fast adds on the carried backend.
    pub fn add_orders_batch_fast(&mut self, orders: &[Order]) -> (counts: (u32, u32))
        requires
            old(self).inv(),
            orders@.len() <= u32::MAX,
        ensures
            final(self).inv(),
            final(self).symbols_spec() == old(self).symbols_spec(),
            final(self).kind() == old(self).kind(),
            counts.0 + counts.1 == orders@.len(),
            Self::batch_effect(*old(self), *final(self), orders@, counts.0 as int),
    {
        match self {
            OrderBook::HashMap(book) => book.add_orders_batch_fast(orders),
            OrderBook::PriorityQueue(book) => book.add_orders_batch_fast(orders),
            OrderBook::ArrayQueue(book) => book.add_orders_batch_fast(orders),
        }
    }

    /// Repeated unchecked adds on the carried backend.
    pub fn add_orders_batch_unchecked(&mut self, orders: &[Order]) -> (added: u32)
        requires
            old(self).inv(),
            orders@.len() <= u32::MAX,
            forall|k: int|
                0 <= k < orders@.len() ==> old(self).symbols_spec().contains(
                    (#[trigger] orders@[k]).symbol,
                ),
        ensures
            final(self).inv(),
            final(self).symbols_spec() == old(self).symbols_spec(),
            final(self).kind() == old(self).kind(),
            added == orders@.len(),
            Self::batch_force_effect(*old(self), *final(self), orders@),
    {
        match self {
            OrderBook::HashMap(book) => book.add_orders_batch_unchecked(orders),
            OrderBook::PriorityQueue(book) => book.add_orders_batch_unchecked(orders),
            OrderBook::ArrayQueue(book) => book.add_orders_batch_unchecked(orders),
        }
    }

    /// Best prices as the carried backend reports them.
    pub fn get_best_prices(&self, symbol: SymbolId) -> (r: Option<(Option<u64>, Option<u64>)>)
        requires
            self.inv(),
        ensures
            r == (if self.symbols_spec().contains(symbol) {
                Some(self.best_prices_spec(symbol))
            } else {
                Option::<(Option<u64>, Option<u64>)>::None
            }),
    {
        match self {
            OrderBook::HashMap(book) => book.get_best_prices(symbol),
            OrderBook::PriorityQueue(book) => book.get_best_prices(symbol),
            OrderBook::ArrayQueue(book) => book.get_best_prices(symbol),
        }
    }

    /// Whether the carried backend reports a cross for the symbol.
    pub fn can_match(&self, symbol: SymbolId) -> (r: bool)
        requires
            self.inv(),
        ensures
            r == (self.symbols_spec().contains(symbol) && self.can_match_spec(symbol)),
    {
        match self {
            OrderBook::HashMap(book) => book.can_match(symbol),
            OrderBook::PriorityQueue(book) => book.can_match(symbol),
            OrderBook::ArrayQueue(book) => book.can_match(symbol),
        }
    }

    /// Whether the symbol is in the set fixed at construction.
    pub fn is_valid_symbol(&self, symbol: SymbolId) -> (r: bool)
        requires
            self.inv(),
        ensures
            r == self.symbols_spec().contains(symbol),
    {
        match self {
            OrderBook::HashMap(book) => book.is_valid_symbol(symbol),
            OrderBook::PriorityQueue(book) => book.is_valid_symbol(symbol),
            OrderBook::ArrayQueue(book) => book.is_valid_symbol(symbol),
        }
    }

    /// The symbol set fixed at construction.
    pub fn get_symbols(&self) -> (r: &rustc_hash::FxHashSet<SymbolId>)
        requires
            self.inv(),
        ensures
            r@ == self.symbols_spec(),
    {
        match self {
            OrderBook::HashMap(book) => book.get_symbols(),
            OrderBook::PriorityQueue(book) => book.get_symbols(),
            OrderBook::ArrayQueue(book) => book.get_symbols(),
        }
    }

    /// The kind of the carried backend.
    pub fn order_book_type(&self) -> (r: OrderBookType)
        ensures
            r == self.kind(),
    {
        match self {
            OrderBook::HashMap(book) => book.order_book_type(),
            OrderBook::PriorityQueue(book) => book.order_book_type(),
            OrderBook::ArrayQueue(book) => book.order_book_type(),
        }
    }
}

/// A book of the asked-for kind over the given symbols.
pub fn create_order_book(order_book_type: OrderBookType, symbols: rustc_hash::FxHashSet<SymbolId>) -> (r:
    OrderBook)
    ensures
        r.inv(),
        r.symbols_spec() == symbols@,
        r.kind() == order_book_type,
        forall|sym: SymbolId|
            r.symbols_spec().contains(sym) ==> #[trigger] r.best_prices_spec(sym) == (
                Option::<u64>::None,
                Option::<u64>::None,
            ) && !r.can_match_spec(sym),
        r matches OrderBook::ArrayQueue(b) ==> forall|sym: SymbolId|
            b.symbols_spec().contains(sym) ==> (#[trigger] b.matcher_of(sym)).bid_orders()
                == Seq::<Order>::empty() && b.matcher_of(sym).ask_orders() == Seq::<
                Order,
            >::empty(),
{
    match order_book_type {
        OrderBookType::HashMap => OrderBook::HashMap(HashMapOrderBook::new(symbols)),
        OrderBookType::PriorityQueue => OrderBook::PriorityQueue(
            PriorityQueueOrderBook::new(symbols),
        ),
        OrderBookType::ArrayQueue => OrderBook::ArrayQueue(ArrayQueueOrderBook::new(symbols)),
    }
}

/// An ordered price-level book over the given symbols.
pub fn create_hashmap_order_book(symbols: rustc_hash::FxHashSet<SymbolId>) -> (r:
    HashMapOrderBook)
    ensures
        r.inv(),
        r.symbols_spec() == symbols@,
        forall|sym: SymbolId|
            r.symbols_spec().contains(sym) ==> #[trigger] r.best_prices_spec(sym) == (
                Option::<u64>::None,
                Option::<u64>::None,
            ) && !r.can_match_spec(sym),
{
    HashMapOrderBook::new(symbols)
}

/// A priority-queue book over the given symbols.
pub fn create_priority_queue_order_book(symbols: rustc_hash::FxHashSet<SymbolId>) -> (r:
    PriorityQueueOrderBook)
    ensures
        r.inv(),
        r.symbols_spec() == symbols@,
        forall|sym: SymbolId|
            r.symbols_spec().contains(sym) ==> #[trigger] r.best_prices_spec(sym) == (
                Option::<u64>::None,
                Option::<u64>::None,
            ) && !r.can_match_spec(sym),
{
    PriorityQueueOrderBook::new(symbols)
}

/// A ring-buffer book over the given symbols.
pub fn create_array_queue_order_book(symbols: rustc_hash::FxHashSet<SymbolId>) -> (r:
    ArrayQueueOrderBook)
    ensures
        r.inv(),
        r.symbols_spec() == symbols@,
        forall|sym: SymbolId|
            r.symbols_spec().contains(sym) ==> #[trigger] r.best_prices_spec(sym) == (
                Option::<u64>::None,
                Option::<u64>::None,
            ) && !r.can_match_spec(sym),
        forall|sym: SymbolId|
            r.symbols_spec().contains(sym) ==> (#[trigger] r.matcher_of(sym)).bid_orders()
                == Seq::<Order>::empty() && r.matcher_of(sym).ask_orders() == Seq::<
                Order,
            >::empty(),
{
    ArrayQueueOrderBook::new(symbols)
}

} // verus!
