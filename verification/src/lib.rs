//! An in-process limit order matching engine.
//!
//! Orders tagged with a symbol are stored per symbol in one of three
//! interchangeable backends (an ordered price-level map, a priority queue,
//! or a bounded ring buffer) and matched under price-time priority.

pub mod array_queue_order_book;
pub mod book_route;
pub mod fxmap;
pub mod hashmap_order_book;
pub mod order;
pub mod order_book;
pub mod order_book_trait;
pub mod order_router;
pub mod priority_queue_order_book;
pub mod ring;
pub mod symbol_index;
