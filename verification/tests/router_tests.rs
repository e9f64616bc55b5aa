use rustc_hash::FxHashSet;

use order_book::book_route::BookRoute;
use order_book::order::{Order, OrderSide, SymbolId};
use order_book::order_book::{create_order_book, OrderBookType};
use order_book::order_router::OrderRouter;

const APPLE_SYMBOL: SymbolId = 0;
const GOOGLE_SYMBOL: SymbolId = 1;
const UNKNOWN_SYMBOL: SymbolId = 99;

fn new_order(id: u64, symbol: SymbolId, quantity: u64, price: f64, order_type: OrderSide) -> Order {
    Order { id, symbol, quantity, price: (price * 1000.0) as u64, order_type }
}

#[test]
fn test_router_rejects_unknown_symbol() {
    let symbols: FxHashSet<SymbolId> = FxHashSet::from_iter([APPLE_SYMBOL, GOOGLE_SYMBOL]);
    let mut router = OrderRouter::new_direct(symbols, OrderBookType::HashMap);

    assert!(router.supports_symbol(APPLE_SYMBOL));
    assert!(router.supports_symbol(GOOGLE_SYMBOL));
    assert!(!router.supports_symbol(UNKNOWN_SYMBOL));

    let stray = new_order(1, UNKNOWN_SYMBOL, 100, 150.0, OrderSide::Buy);
    assert_eq!(router.route_order(stray), Err("Invalid symbol"));

    // Every per-symbol book is still empty.
    for book in &router.books {
        for sym in [APPLE_SYMBOL, GOOGLE_SYMBOL] {
            if book.is_valid_symbol(sym) {
                assert_eq!(book.get_best_prices(sym), Some((None, None)));
            }
        }
    }
}

#[test]
fn test_router_matches_symbols_independently() {
    let symbols: FxHashSet<SymbolId> = FxHashSet::from_iter([APPLE_SYMBOL, GOOGLE_SYMBOL]);
    let mut router = OrderRouter::new_direct(symbols, OrderBookType::HashMap);

    assert!(router.route_order(new_order(1, APPLE_SYMBOL, 100, 150.0, OrderSide::Buy)).is_ok());
    assert!(router.route_order(new_order(2, APPLE_SYMBOL, 100, 150.0, OrderSide::Sell)).is_ok());
    assert!(router.route_order(new_order(3, GOOGLE_SYMBOL, 200, 2500.0, OrderSide::Buy)).is_ok());
    assert!(router.route_order(new_order(4, GOOGLE_SYMBOL, 100, 2500.0, OrderSide::Sell)).is_ok());

    router.match_all_orders();

    // Both symbols' crossing pairs were consumed, each in its own book.
    for book in &router.books {
        for sym in [APPLE_SYMBOL, GOOGLE_SYMBOL] {
            if book.is_valid_symbol(sym) {
                assert!(!book.can_match(sym));
                assert_eq!(book.get_best_prices(sym), Some((None, None)));
            }
        }
    }
}

#[test]
fn test_router_introspection() {
    let symbols: FxHashSet<SymbolId> = FxHashSet::from_iter([APPLE_SYMBOL, GOOGLE_SYMBOL]);
    let router = OrderRouter::new_direct(symbols, OrderBookType::PriorityQueue);

    assert_eq!(router.get_implementation_name(), "PriorityQueue");
    let mut listed = router.get_symbols();
    listed.sort();
    assert_eq!(listed, vec![APPLE_SYMBOL, GOOGLE_SYMBOL]);
}

#[test]
fn test_book_route_process_order() {
    let symbols: FxHashSet<SymbolId> = FxHashSet::from_iter([APPLE_SYMBOL]);
    let book = create_order_book(OrderBookType::HashMap, symbols);
    let mut route = BookRoute::new(APPLE_SYMBOL, book);

    route.process_order(new_order(1, APPLE_SYMBOL, 100, 150.0, OrderSide::Buy));
    assert_eq!(route.order_book.get_best_prices(APPLE_SYMBOL), Some((Some(150000), None)));

    route.process_order(new_order(2, APPLE_SYMBOL, 100, 150.0, OrderSide::Sell));
    // The add-then-match pass consumed the crossing pair.
    assert_eq!(route.order_book.get_best_prices(APPLE_SYMBOL), Some((None, None)));
}
