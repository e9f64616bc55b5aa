use rustc_hash::FxHashSet;

use order_book::array_queue_order_book::ArrayQueueOrderBook;
use order_book::hashmap_order_book::HashMapMatcher;
use order_book::hashmap_order_book::HashMapOrderBook;
use order_book::order::{Order, OrderSide, SymbolId};
use order_book::order_book::{
    create_array_queue_order_book, create_hashmap_order_book, create_order_book,
    create_priority_queue_order_book, OrderBookType,
};
use order_book::order_book_trait::{OrderBookError, OrderBookTrait};
use order_book::priority_queue_order_book::PriorityQueueOrderBook;

const APPLE_SYMBOL: SymbolId = 0;
const GOOGLE_SYMBOL: SymbolId = 1;

fn new_order(id: u64, symbol: SymbolId, quantity: u64, price: f64, order_type: OrderSide) -> Order {
    Order { id, symbol, quantity, price: (price * 1000.0) as u64, order_type }
}

#[test]
fn test_basic_operations() {
    let mut order_book = ArrayQueueOrderBook::new(FxHashSet::from_iter([APPLE_SYMBOL]));

    let order = new_order(1, APPLE_SYMBOL, 100, 150.0, OrderSide::Buy);
    assert!(order_book.add_order_fast(order));

    let stats = order_book.get_queue_stats(APPLE_SYMBOL);
    assert!(stats.is_some());

    let utilization = stats.map(|(bid_cap, ask_cap, bid_len, ask_len)| {
        (bid_len as f64 / bid_cap as f64, ask_len as f64 / ask_cap as f64)
    });
    assert!(utilization.is_some());
    let (bid_util, ask_util) = utilization.unwrap();
    assert!(bid_util > 0.0);
    assert_eq!(ask_util, 0.0);
}

#[test]
fn test_batch_operations() {
    let mut order_book = ArrayQueueOrderBook::new(FxHashSet::from_iter([APPLE_SYMBOL]));

    let orders = vec![
        new_order(1, APPLE_SYMBOL, 100, 150.0, OrderSide::Buy),
        new_order(2, APPLE_SYMBOL, 50, 149.0, OrderSide::Buy),
        new_order(3, APPLE_SYMBOL, 75, 151.0, OrderSide::Sell),
    ];

    let (successful, failed) = order_book.add_orders_batch_fast(&orders);
    assert_eq!(successful, 3);
    assert_eq!(failed, 0);
}

#[test]
fn test_hashmap_order_book_basic() {
    let mut order_book = HashMapOrderBook::new(FxHashSet::from_iter([APPLE_SYMBOL]));
    let order = new_order(1, APPLE_SYMBOL, 100, 150.0, OrderSide::Buy);

    assert!(order_book.add_order(order).is_ok());
    assert_eq!(order_book.get_symbols(), &FxHashSet::from_iter([APPLE_SYMBOL]));
}

#[test]
fn test_hashmap_matcher_best_prices() {
    let mut matcher = HashMapMatcher::new();

    let buy_order = new_order(1, 0, 100, 99.50, OrderSide::Buy);
    let sell_order = new_order(2, 0, 100, 100.50, OrderSide::Sell);

    matcher.add_order(buy_order);
    matcher.add_order(sell_order);

    assert_eq!(matcher.get_best_bid(), Some(99500)); // 99.50 * 1000
    assert_eq!(matcher.get_best_ask(), Some(100500)); // 100.50 * 1000
    assert!(!matcher.can_match());
}

#[test]
fn test_factory_creates_all_types() {
    let symbols: FxHashSet<SymbolId> = FxHashSet::from_iter([0]);

    let hashmap_book = create_order_book(OrderBookType::HashMap, symbols.clone());
    let priority_book = create_order_book(OrderBookType::PriorityQueue, symbols.clone());
    let array_book = create_order_book(OrderBookType::ArrayQueue, symbols.clone());

    assert_eq!(hashmap_book.order_book_type(), OrderBookType::HashMap);
    assert_eq!(priority_book.order_book_type(), OrderBookType::PriorityQueue);
    assert_eq!(array_book.order_book_type(), OrderBookType::ArrayQueue);
}

#[test]
fn test_factory_functions_work() {
    let symbols: FxHashSet<SymbolId> = FxHashSet::from_iter([0]);

    let mut hashmap_book = create_hashmap_order_book(symbols.clone());
    let order = new_order(1, 0, 100, 150.0, OrderSide::Buy);

    assert!(hashmap_book.add_order(order).is_ok());
}

#[test]
fn test_priority_queue_order_book() {
    let mut order_book = PriorityQueueOrderBook::new(FxHashSet::from_iter([APPLE_SYMBOL]));

    let buy_order = new_order(1, APPLE_SYMBOL, 100, 150.0, OrderSide::Buy);
    assert!(order_book.add_order(buy_order).is_ok());

    let sell_order = new_order(2, APPLE_SYMBOL, 100, 151.0, OrderSide::Sell);
    assert!(order_book.add_order(sell_order).is_ok());

    assert!(!order_book.can_match(APPLE_SYMBOL));

    let matching_sell = new_order(3, APPLE_SYMBOL, 50, 150.0, OrderSide::Sell);
    assert!(order_book.add_order(matching_sell).is_ok());

    assert!(order_book.can_match(APPLE_SYMBOL));

    assert_eq!(order_book.order_book_type(), OrderBookType::PriorityQueue);
}

#[test]
fn test_price_time_priority() {
    let mut order_book = PriorityQueueOrderBook::new(FxHashSet::from_iter([APPLE_SYMBOL]));

    let buy1 = new_order(1, APPLE_SYMBOL, 100, 150.0, OrderSide::Buy);
    let buy2 = new_order(2, APPLE_SYMBOL, 100, 150.0, OrderSide::Buy);

    order_book.add_order(buy2.clone()).unwrap();
    order_book.add_order(buy1.clone()).unwrap();

    let best_prices = order_book.get_best_prices(APPLE_SYMBOL).unwrap();
    assert_eq!(best_prices.0, Some(150000));
}

#[test]
fn test_invalid_symbol_rejected_on_all_backends() {
    let symbols: FxHashSet<SymbolId> = FxHashSet::from_iter([APPLE_SYMBOL]);
    let order = new_order(1, GOOGLE_SYMBOL, 100, 150.0, OrderSide::Buy);

    let mut hashmap_book = create_hashmap_order_book(symbols.clone());
    assert!(matches!(hashmap_book.add_order(order), Err(OrderBookError::InvalidSymbol)));
    assert!(!hashmap_book.add_order_fast(order));
    assert!(hashmap_book.is_valid_symbol(APPLE_SYMBOL));
    assert!(!hashmap_book.is_valid_symbol(GOOGLE_SYMBOL));
    assert_eq!(hashmap_book.get_best_prices(GOOGLE_SYMBOL), None);
    assert_eq!(hashmap_book.get_best_prices(APPLE_SYMBOL), Some((None, None)));

    let mut priority_book = create_priority_queue_order_book(symbols.clone());
    assert!(matches!(priority_book.add_order(order), Err(OrderBookError::InvalidSymbol)));
    assert!(!priority_book.is_valid_symbol(GOOGLE_SYMBOL));
    assert_eq!(priority_book.get_best_prices(APPLE_SYMBOL), Some((None, None)));

    let mut array_book = create_array_queue_order_book(symbols.clone());
    assert!(matches!(array_book.add_order(order), Err(OrderBookError::InvalidSymbol)));
    assert!(!array_book.is_valid_symbol(GOOGLE_SYMBOL));
    assert_eq!(array_book.get_best_prices(APPLE_SYMBOL), Some((None, None)));
}

#[test]
fn test_hashmap_scenario_single_cross() {
    let mut book = HashMapOrderBook::new(FxHashSet::from_iter([APPLE_SYMBOL]));

    book.add_order(new_order(1, APPLE_SYMBOL, 100, 150.0, OrderSide::Buy)).unwrap();
    book.add_order(new_order(2, APPLE_SYMBOL, 100, 150.0, OrderSide::Sell)).unwrap();

    assert!(book.can_match(APPLE_SYMBOL));
    book.match_orders();
    assert!(!book.can_match(APPLE_SYMBOL));
    assert_eq!(book.get_best_prices(APPLE_SYMBOL), Some((None, None)));
}

#[test]
fn test_match_to_quiescence_leaves_no_cross() {
    for book_type in [OrderBookType::HashMap, OrderBookType::PriorityQueue] {
        let mut book = create_order_book(book_type, FxHashSet::from_iter([APPLE_SYMBOL]));

        book.add_order(new_order(1, APPLE_SYMBOL, 10, 101.0, OrderSide::Buy)).unwrap();
        book.add_order(new_order(2, APPLE_SYMBOL, 10, 102.0, OrderSide::Buy)).unwrap();
        book.add_order(new_order(3, APPLE_SYMBOL, 10, 100.0, OrderSide::Buy)).unwrap();
        book.add_order(new_order(4, APPLE_SYMBOL, 10, 100.5, OrderSide::Sell)).unwrap();
        book.add_order(new_order(5, APPLE_SYMBOL, 10, 101.5, OrderSide::Sell)).unwrap();
        book.add_order(new_order(6, APPLE_SYMBOL, 10, 103.0, OrderSide::Sell)).unwrap();

        book.match_orders();
        assert!(!book.can_match(APPLE_SYMBOL));
        let (best_bid, best_ask) = book.get_best_prices(APPLE_SYMBOL).unwrap();
        if let (Some(bid), Some(ask)) = (best_bid, best_ask) {
            assert!(bid < ask);
        }
    }
}

#[test]
fn test_hashmap_fifo_within_level() {
    // Two bids at one price, the earlier-filed one carrying the level after
    // one match against a single crossing ask.
    let mut book = HashMapOrderBook::new(FxHashSet::from_iter([APPLE_SYMBOL]));
    book.add_order(new_order(1, APPLE_SYMBOL, 10, 150.0, OrderSide::Buy)).unwrap();
    book.add_order(new_order(2, APPLE_SYMBOL, 20, 150.0, OrderSide::Buy)).unwrap();
    book.add_order(new_order(3, APPLE_SYMBOL, 10, 150.0, OrderSide::Sell)).unwrap();

    book.match_orders();
    // One pair was consumed; one bid still rests at 150.0 and no ask is left.
    assert_eq!(book.get_best_prices(APPLE_SYMBOL), Some((Some(150000), None)));
}

#[test]
fn test_priority_queue_best_bid_either_insertion_order() {
    for flip in [false, true] {
        let mut book = PriorityQueueOrderBook::new(FxHashSet::from_iter([APPLE_SYMBOL]));
        let buy1 = new_order(1, APPLE_SYMBOL, 100, 150.0, OrderSide::Buy);
        let buy2 = new_order(2, APPLE_SYMBOL, 100, 150.0, OrderSide::Buy);
        if flip {
            book.add_order(buy1).unwrap();
            book.add_order(buy2).unwrap();
        } else {
            book.add_order(buy2).unwrap();
            book.add_order(buy1).unwrap();
        }
        let best_prices = book.get_best_prices(APPLE_SYMBOL).unwrap();
        assert_eq!(best_prices.0, Some(150000));
    }
}

#[test]
fn test_array_queue_checked_path_refuses_when_full() {
    let mut book = ArrayQueueOrderBook::new(FxHashSet::from_iter([APPLE_SYMBOL]));
    for id in 0..4096u64 {
        let r = book.add_order(new_order(id, APPLE_SYMBOL, 10, 100.0, OrderSide::Buy));
        assert_eq!(r, Ok(true));
    }
    // The ring is full: the checked path refuses.
    let refused = book.add_order(new_order(5000, APPLE_SYMBOL, 10, 100.0, OrderSide::Buy));
    assert_eq!(refused, Ok(false));
    let (bid_cap, _, bid_len, _) = book.get_queue_stats(APPLE_SYMBOL).unwrap();
    assert_eq!(bid_len, bid_cap);

    // The unchecked path evicts the oldest resting order instead.
    book.add_order_unchecked(new_order(5001, APPLE_SYMBOL, 10, 200.0, OrderSide::Buy));
    let (_, _, bid_len_after, _) = book.get_queue_stats(APPLE_SYMBOL).unwrap();
    assert_eq!(bid_len_after, bid_cap);
    let (best_bid, _) = book.get_best_prices(APPLE_SYMBOL).unwrap();
    assert_eq!(best_bid, Some(200000));
}

#[test]
fn test_array_queue_extrema_reset_after_match() {
    let mut book = ArrayQueueOrderBook::new(FxHashSet::from_iter([APPLE_SYMBOL]));
    book.add_order(new_order(1, APPLE_SYMBOL, 10, 100.0, OrderSide::Buy)).unwrap();
    book.add_order(new_order(2, APPLE_SYMBOL, 10, 90.0, OrderSide::Buy)).unwrap();
    book.add_order(new_order(3, APPLE_SYMBOL, 10, 95.0, OrderSide::Sell)).unwrap();

    assert_eq!(book.get_best_prices(APPLE_SYMBOL), Some((Some(100000), Some(95000))));
    book.match_orders();
    // One pair matched; the extrema are cleared even though a bid rests.
    assert_eq!(book.get_best_prices(APPLE_SYMBOL), Some((None, None)));
    let (_, _, bid_len, ask_len) = book.get_queue_stats(APPLE_SYMBOL).unwrap();
    assert_eq!((bid_len, ask_len), (1, 0));
    assert!(!book.is_symbol_empty(APPLE_SYMBOL));
}

#[test]
fn test_array_queue_front_only_matching() {
    let mut book = ArrayQueueOrderBook::new(FxHashSet::from_iter([APPLE_SYMBOL]));
    // The crossing bid sits behind a non-crossing front bid, so the bounded
    // pass finds no match and puts the fronts back at the tails.
    book.add_order(new_order(1, APPLE_SYMBOL, 10, 90.0, OrderSide::Buy)).unwrap();
    book.add_order(new_order(2, APPLE_SYMBOL, 10, 100.0, OrderSide::Buy)).unwrap();
    book.add_order(new_order(3, APPLE_SYMBOL, 10, 95.0, OrderSide::Sell)).unwrap();

    book.match_orders();
    let (_, _, bid_len, ask_len) = book.get_queue_stats(APPLE_SYMBOL).unwrap();
    assert_eq!((bid_len, ask_len), (2, 1));
    // No match happened, so the extrema still stand.
    assert_eq!(book.get_best_prices(APPLE_SYMBOL), Some((Some(100000), Some(95000))));
}

#[test]
fn test_batch_counts_mixed_validity() {
    let mut book = HashMapOrderBook::new(FxHashSet::from_iter([APPLE_SYMBOL]));
    let orders = vec![
        new_order(1, APPLE_SYMBOL, 100, 150.0, OrderSide::Buy),
        new_order(2, GOOGLE_SYMBOL, 50, 149.0, OrderSide::Buy),
        new_order(3, APPLE_SYMBOL, 75, 151.0, OrderSide::Sell),
    ];
    let (successful, failed) = book.add_orders_batch_fast(&orders);
    assert_eq!(successful, 2);
    assert_eq!(failed, 1);

    let added = book.add_orders_batch_unchecked(&[
        new_order(4, APPLE_SYMBOL, 10, 148.0, OrderSide::Buy),
        new_order(5, APPLE_SYMBOL, 10, 152.0, OrderSide::Sell),
    ]);
    assert_eq!(added, 2);
}
