//! A simpler routing primitive: exactly one symbol paired with one book,
//! with a combined add-then-match operation. An alternative entry point that
//! the symbol router does not use.

use vstd::prelude::*;

use crate::order::{Order, SymbolId};
use crate::order_book::{OrderBook, OrderBookType};

verus! {

/// One symbol and the book that serves it.
pub struct BookRoute {
    pub symbol: SymbolId,
    pub order_book: OrderBook,
}

impl BookRoute {
    /// Pairs the symbol with the book.
    pub fn new(symbol: SymbolId, order_book: OrderBook) -> (r: Self)
        ensures
            r.symbol == symbol,
            r.order_book == order_book,
    {
        BookRoute { symbol, order_book }
    }

    /// Offers the order over the fast path, then runs one matching pass:
    /// the final book is the matching evolution of the fast-add evolution
    /// of the old one. With an exact backend kind it reports no cross
    /// afterwards.
    pub fn process_order(&mut self, order: Order)
        requires
            old(self).order_book.inv(),
        ensures
            final(self).order_book.inv(),
            final(self).symbol == old(self).symbol,
            final(self).order_book.symbols_spec() == old(self).order_book.symbols_spec(),
            final(self).order_book.kind() == old(self).order_book.kind(),
            exists|mid: OrderBook|
                #[trigger] OrderBook::add_effect(old(self).order_book, mid, order)
                    && OrderBook::match_effect(mid, final(self).order_book),
            old(self).order_book.kind() != OrderBookType::ArrayQueue ==> forall|s: SymbolId|
                old(self).order_book.symbols_spec().contains(s)
                    ==> !(#[trigger] final(self).order_book.can_match_spec(s)),
    {
        let _ = self.order_book.add_order_fast(order);
        let ghost mid = self.order_book;
        self.order_book.match_orders();
        proof {
            assert(OrderBook::add_effect(old(self).order_book, mid, order)
                && OrderBook::match_effect(mid, self.order_book));
        }
    }
}

} // verus!
