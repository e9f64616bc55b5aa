//! The contract every backend implements: validated, fast and unchecked add
//! paths, one matching pass, batch adds, and read-only queries. Each backend
//! refines these contracts with its own exact state evolution.

use vstd::prelude::*;

use crate::order::{Order, SymbolId};
use crate::order_book::OrderBookType;

verus! {

/// The error of the checked entry point: the order names a symbol the book
/// does not accept.
#[derive(Debug, Clone, Copy, PartialEq, Eq, Structural)]
pub enum OrderBookError {
    InvalidSymbol,
}

/// A batch of orders applied in sequence to per-symbol states: each order
/// addressed to an accepted symbol is offered to its symbol's state, which
/// may take it or refuse it; the rest fail. The result is the states and how
/// many orders were taken.
pub open spec fn batch_fold<S>(
    states: Map<SymbolId, S>,
    symbols: Set<SymbolId>,
    orders: Seq<Order>,
    offer: spec_fn(S, Order) -> (S, bool),
) -> (Map<SymbolId, S>, int)
    decreases orders.len(),
{
    if orders.len() == 0 {
        (states, 0)
    } else {
        let o = orders[0];
        if symbols.contains(o.symbol) {
            let step = offer(states[o.symbol], o);
            let rest = batch_fold(states.insert(o.symbol, step.0), symbols, orders.drop_first(), offer);
            (rest.0, rest.1 + if step.1 {
                1 as int
            } else {
                0 as int
            })
        } else {
            batch_fold(states, symbols, orders.drop_first(), offer)
        }
    }
}

/// A batch of orders applied in sequence to per-symbol states over the
/// unchecked path, where every order's symbol is accepted and none is
/// refused.
pub open spec fn batch_force<S>(
    states: Map<SymbolId, S>,
    symbols: Set<SymbolId>,
    orders: Seq<Order>,
    force: spec_fn(S, Order) -> S,
) -> Map<SymbolId, S>
    decreases orders.len(),
{
    if orders.len() == 0 {
        states
    } else {
        let o = orders[0];
        if symbols.contains(o.symbol) {
            batch_force(states.insert(o.symbol, force(states[o.symbol], o)), symbols, orders.drop_first(), force)
        } else {
            batch_force(states, symbols, orders.drop_first(), force)
        }
    }
}

/// The operation set shared by the three backends. `inv` is each backend's
/// internal invariant; `accepts_spec` says whether the fast path would take
/// the order (capacity grounds, the symbol being valid); the two `_spec`
/// queries name what the read-only operations report.
pub trait OrderBookTrait: Sized {
    /// The backend's internal invariant, established by `new` and preserved
    /// by every operation.
    spec fn inv(&self) -> bool;

    /// The symbol set fixed at construction.
    spec fn symbols_spec(&self) -> Set<SymbolId>;

    /// Whether the book would take this order on capacity grounds, its
    /// symbol being valid.
    spec fn accepts_spec(&self, order: Order) -> bool;

    /// The best bid and best ask reported for an accepted symbol.
    spec fn best_prices_spec(&self, symbol: SymbolId) -> (Option<u64>, Option<u64>);

    /// Whether a cross is reported for an accepted symbol.
    spec fn can_match_spec(&self, symbol: SymbolId) -> bool;

    /// The tag of this backend.
    spec fn book_type_spec() -> OrderBookType;

    /// A book over the given symbols, one empty matcher per symbol.
    fn new(symbols: rustc_hash::FxHashSet<SymbolId>) -> (r: Self)
        ensures
            r.inv(),
            r.symbols_spec() == symbols@,
            forall|sym: SymbolId|
                r.symbols_spec().contains(sym) ==> #[trigger] r.best_prices_spec(sym) == (
                    Option::<u64>::None,
                    Option::<u64>::None,
                ) && !r.can_match_spec(sym),
    ;

    /// The validated entry point: refuses an unknown symbol with
    /// `InvalidSymbol` and leaves the book unchanged; otherwise inserts and
    /// reports whether the backend took the order.
    fn add_order(&mut self, order: Order) -> (r: Result<bool, OrderBookError>)
        requires
            old(self).inv(),
        ensures
            final(self).inv(),
            final(self).symbols_spec() == old(self).symbols_spec(),
            r is Err <==> !old(self).symbols_spec().contains(order.symbol),
            !old(self).symbols_spec().contains(order.symbol) ==> r == Err::<
                bool,
                OrderBookError,
            >(OrderBookError::InvalidSymbol) && *final(self) == *old(self),
            r is Ok ==> r == Ok::<bool, OrderBookError>(old(self).accepts_spec(order)),
    ;

    /// The fast entry point: success as a plain boolean, collapsing the
    /// unknown-symbol and at-capacity causes.
    fn add_order_fast(&mut self, order: Order) -> (accepted: bool)
        requires
            old(self).inv(),
        ensures
            final(self).inv(),
            final(self).symbols_spec() == old(self).symbols_spec(),
            accepted == (old(self).symbols_spec().contains(order.symbol) && old(
                self,
            ).accepts_spec(order)),
            !old(self).symbols_spec().contains(order.symbol) ==> *final(self) == *old(self),
    ;

    /// The unchecked entry point: the caller guarantees the symbol is valid,
    /// so the validity branch is skipped. A full backend may evict to make
    /// room rather than refuse.
    fn add_order_unchecked(&mut self, order: Order)
        requires
            old(self).inv(),
            old(self).symbols_spec().contains(order.symbol),
        ensures
            final(self).inv(),
            final(self).symbols_spec() == old(self).symbols_spec(),
    ;

    /// One matching pass over every symbol's matcher.
    fn match_orders(&mut self)
        requires
            old(self).inv(),
        ensures
            final(self).inv(),
            final(self).symbols_spec() == old(self).symbols_spec(),
    ;

    /// Repeated fast adds; counts of successes and failures, no rollback.
    fn add_orders_batch_fast(&mut self, orders: &[Order]) -> (counts: (u32, u32))
        requires
            old(self).inv(),
            orders@.len() <= u32::MAX,
        ensures
            final(self).inv(),
            final(self).symbols_spec() == old(self).symbols_spec(),
            counts.0 + counts.1 == orders@.len(),
    ;

    /// Repeated unchecked adds; every symbol must be valid.
    fn add_orders_batch_unchecked(&mut self, orders: &[Order]) -> (added: u32)
        requires
            old(self).inv(),
            orders@.len() <= u32::MAX,
            forall|k: int|
                0 <= k < orders@.len() ==> old(self).symbols_spec().contains(
                    (#[trigger] orders@[k]).symbol,
                ),
        ensures
            final(self).inv(),
            final(self).symbols_spec() == old(self).symbols_spec(),
            added == orders@.len(),
    ;

    /// `None` for an unknown symbol; otherwise the per-side best prices,
    /// `None` per side as the backend reports it.
    fn get_best_prices(&self, symbol: SymbolId) -> (r: Option<(Option<u64>, Option<u64>)>)
        requires
            self.inv(),
        ensures
            r == (if self.symbols_spec().contains(symbol) {
                Some(self.best_prices_spec(symbol))
            } else {
                Option::<(Option<u64>, Option<u64>)>::None
            }),
    ;

    /// Whether a cross is reported; `false` for an unknown symbol.
    fn can_match(&self, symbol: SymbolId) -> (r: bool)
        requires
            self.inv(),
        ensures
            r == (self.symbols_spec().contains(symbol) && self.can_match_spec(symbol)),
    ;

    /// Whether the symbol is in the set fixed at construction.
    fn is_valid_symbol(&self, symbol: SymbolId) -> (r: bool)
        requires
            self.inv(),
        ensures
            r == self.symbols_spec().contains(symbol),
    ;

    /// The symbol set fixed at construction.
    fn get_symbols(&self) -> (r: &rustc_hash::FxHashSet<SymbolId>)
        requires
            self.inv(),
        ensures
            r@ == self.symbols_spec(),
    ;

    /// The tag of this backend.
    fn order_book_type(&self) -> (r: OrderBookType)
        ensures
            r == Self::book_type_spec(),
    ;
}

} // verus!
