//! The symbol router: one whole book per symbol, each scoped to a singleton
//! symbol set, so that no symbol ever shares matcher state with another.

use vstd::prelude::*;

use crate::fxmap::fx_set_insert;
use crate::order::{Order, SymbolId};
use crate::order_book::{create_order_book, OrderBook, OrderBookType};
use crate::symbol_index::SymbolIndex;

verus! {

/// One book per symbol, reached through the symbol directory, plus the kind
/// every book was built with.
pub struct OrderRouter {
    pub books: Vec<OrderBook>,
    pub directory: SymbolIndex,
    pub order_book_type: OrderBookType,
}

impl OrderRouter {
    /// Every symbol owns one book of the configured kind, scoped to exactly
    /// that symbol.
    pub open spec fn inv(&self) -> bool {
        &&& self.directory.wf()
        &&& self.books@.len() == self.directory.ids@.len()
        &&& forall|i: int|
            0 <= i < self.books@.len() ==> {
                &&& (#[trigger] self.books@[i]).inv()
                &&& self.books@[i].kind() == self.order_book_type
                &&& self.books@[i].symbols_spec() == Set::<SymbolId>::empty().insert(
                    self.directory.ids@[i],
                )
            }
    }

    /// The symbols the router accepts.
    pub open spec fn symbols_spec(&self) -> Set<SymbolId> {
        self.directory.symbols()
    }

    /// The book dedicated to an accepted symbol.
    pub open spec fn book_of(&self, sym: SymbolId) -> OrderBook {
        self.books@[self.directory.spec_slot(sym)]
    }

    /// A router over the given symbols: one book of the given kind per
    /// symbol, each over the singleton set of that symbol.
    pub fn new_direct(symbols: rustc_hash::FxHashSet<SymbolId>, order_book_type: OrderBookType) -> (r:
        Self)
        ensures
            r.inv(),
            r.symbols_spec() == symbols@,
            r.order_book_type == order_book_type,
    {
        let directory = SymbolIndex::new(&symbols);
        let n = directory.len();
        let mut books: Vec<OrderBook> = Vec::new();
        let mut i: usize = 0;
        while i < n
            invariant
                0 <= i <= n,
                n == directory.ids@.len(),
                directory.wf(),
                books@.len() == i,
                forall|j: int|
                    0 <= j < i ==> {
                        &&& (#[trigger] books@[j]).inv()
                        &&& books@[j].kind() == order_book_type
                        &&& books@[j].symbols_spec() == Set::<SymbolId>::empty().insert(
                            directory.ids@[j],
                        )
                    },
            decreases n - i,
        {
            let symbol = directory.ids[i];
            let mut symbol_set: rustc_hash::FxHashSet<SymbolId> = Default::default();
            fx_set_insert(&mut symbol_set, symbol);
            books.push(create_order_book(order_book_type, symbol_set));
            i = i + 1;
        }
        OrderRouter { books, directory, order_book_type }
    }

    /// Hands the order to its symbol's book over the fast path; an unknown
    /// symbol is refused and the order dropped, every book left untouched.
    pub fn route_order(&mut self, order: Order) -> (r: Result<(), &'static str>)
        requires
            old(self).inv(),
        ensures
            final(self).inv(),
            final(self).symbols_spec() == old(self).symbols_spec(),
            final(self).order_book_type == old(self).order_book_type,
            r is Err <==> !old(self).symbols_spec().contains(order.symbol),
            r matches Err(reason) ==> reason@ == "Invalid symbol"@,
            !old(self).symbols_spec().contains(order.symbol) ==> *final(self) == *old(self),
            old(self).symbols_spec().contains(order.symbol) ==> OrderBook::add_effect(
                old(self).book_of(order.symbol),
                final(self).book_of(order.symbol),
                order,
            ),
            forall|s: SymbolId|
                old(self).symbols_spec().contains(s) && s != order.symbol
                    ==> #[trigger] final(self).book_of(s) == old(self).book_of(s),
            final(self).directory == old(self).directory,
            final(self).books@.len() == old(self).books@.len(),
    {
        match self.directory.slot_of(order.symbol) {
            Some(i) => {
                let book = &mut self.books[i];
                proof {
                    assert(old(self).books@[i as int].symbols_spec().contains(order.symbol));
                }
                book.add_order_fast(order);
                proof {
                    assert forall|s: SymbolId|
                        old(self).symbols_spec().contains(s) && s != order.symbol
                        implies #[trigger] self.book_of(s) == old(self).book_of(s) by {
                        self.directory.lemma_distinct_slots(s, order.symbol);
                        self.directory.lemma_slot_in_range(s);
                    }
                    assert(self.books@[i as int].symbols_spec() =~= Set::<
                        SymbolId,
                    >::empty().insert(self.directory.ids@[i as int]));
                }
                Ok(())
            },
            None => Err("Invalid symbol"),
        }
    }

    /// One matching pass on every symbol's book. With an exact backend kind
    /// no symbol's book reports a cross afterwards.
    pub fn match_all_orders(&mut self)
        requires
            old(self).inv(),
        ensures
            final(self).inv(),
            final(self).symbols_spec() == old(self).symbols_spec(),
            final(self).order_book_type == old(self).order_book_type,
            final(self).directory == old(self).directory,
            final(self).books@.len() == old(self).books@.len(),
            forall|s: SymbolId|
                old(self).symbols_spec().contains(s) ==> OrderBook::match_effect(
                    old(self).book_of(s),
                    #[trigger] final(self).book_of(s),
                ),
            old(self).order_book_type != OrderBookType::ArrayQueue ==> forall|s: SymbolId|
                old(self).symbols_spec().contains(s)
                    ==> !(#[trigger] final(self).book_of(s)).can_match_spec(s),
    {
        let n = self.books.len();
        let mut i: usize = 0;
        while i < n
            invariant
                0 <= i <= n,
                n == self.books@.len(),
                self.books@.len() == old(self).books@.len(),
                self.directory == old(self).directory,
                self.order_book_type == old(self).order_book_type,
                self.inv(),
                forall|j: int| i <= j < n ==> #[trigger] self.books@[j] == old(self).books@[j],
                forall|j: int|
                    0 <= j < i ==> OrderBook::match_effect(
                        old(self).books@[j],
                        #[trigger] self.books@[j],
                    ),
                forall|j: int|
                    0 <= j < i && old(self).order_book_type != OrderBookType::ArrayQueue ==> {
                        forall|s: SymbolId|
                            (#[trigger] self.books@[j]).symbols_spec().contains(s) ==> !(
                            self.books@[j]).can_match_spec(s)
                    },
            decreases n - i,
        {
            let book = &mut self.books[i];
            book.match_orders();
            i = i + 1;
        }
        proof {
            assert forall|s: SymbolId| old(self).symbols_spec().contains(s) implies OrderBook::match_effect(
                old(self).book_of(s),
                #[trigger] self.book_of(s),
            ) by {
                old(self).directory.lemma_slot_in_range(s);
            }
            if old(self).order_book_type != OrderBookType::ArrayQueue {
                assert forall|s: SymbolId|
                    old(self).symbols_spec().contains(s) implies !(#[trigger] self.book_of(
                    s,
                )).can_match_spec(s) by {
                    old(self).directory.lemma_slot_in_range(s);
                    let i = self.directory.spec_slot(s);
                    assert(self.books@[i].symbols_spec().contains(s));
                }
            }
        }
    }

    /// Whether the router has a book for the symbol.
    pub fn supports_symbol(&self, symbol: SymbolId) -> (r: bool)
        requires
            self.inv(),
        ensures
            r == self.symbols_spec().contains(symbol),
    {
        match self.directory.slot_of(symbol) {
            Some(_) => true,
            None => false,
        }
    }

    /// The name of the configured backend kind.
    pub fn get_implementation_name(&self) -> (r: &'static str)
        ensures
            self.order_book_type == OrderBookType::HashMap ==> r@ == "HashMap"@,
            self.order_book_type == OrderBookType::PriorityQueue ==> r@ == "PriorityQueue"@,
            self.order_book_type == OrderBookType::ArrayQueue ==> r@ == "ArrayQueue"@,
    {
        match self.order_book_type {
            OrderBookType::HashMap => "HashMap",
            OrderBookType::PriorityQueue => "PriorityQueue",
            OrderBookType::ArrayQueue => "ArrayQueue",
        }
    }

    /// The symbols the router accepts, one book each.
    pub fn get_symbols(&self) -> (r: Vec<SymbolId>)
        requires
            self.inv(),
        ensures
            r@ == self.directory.ids@,
            forall|s: SymbolId| r@.contains(s) <==> self.symbols_spec().contains(s),
    {
        let r = self.directory.ids.clone();
        proof {
            assert(r@ =~= self.directory.ids@);
        }
        r
    }
}

} // verus!
