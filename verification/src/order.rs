//! The order record: an immutable-once-created description of a buy or sell
//! interest, with a fixed-point price (real price times 1000, truncated).

use vstd::prelude::*;

verus! {

/// Small integer identifying an instrument.
pub type SymbolId = u16;

/// Which side of the book an order rests on.
#[derive(Debug, Clone, Copy, PartialEq, Eq, Structural)]
pub enum OrderSide {
    Buy,
    Sell,
}

/// An order: identifier, symbol, quantity, fixed-point price and side.
///
/// Identifiers are assigned by the caller in arrival order and serve as the
/// tie-breaker among equal prices; they are assumed unique system-wide.
#[derive(Debug, Clone, Copy, PartialEq, Eq, Structural)]
pub struct Order {
    pub id: u64,
    pub symbol: SymbolId,
    pub quantity: u64,
    pub price: u64,
    pub order_type: OrderSide,
}

impl Order {
    /// True of orders resting on the buy side.
    pub open spec fn is_buy(self) -> bool {
        self.order_type is Buy
    }

    /// True of orders resting on the sell side.
    pub open spec fn is_sell(self) -> bool {
        self.order_type is Sell
    }
}

} // verus!
