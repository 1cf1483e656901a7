use vstd::prelude::*;

verus! {

/// Identifier of an order, chosen by whoever submits it.
pub type OrderId = u64;

/// Price in integer ticks.
pub type Price = u64;

/// Quantity in lots.
pub type Qty = u64;

/// The side of an order.
#[derive(Debug, Clone, Copy, PartialEq, Eq, Hash, Structural)]
pub enum Side {
    Buy,
    Sell,
}

/// How an incoming order treats its unfilled remainder.
#[derive(Debug, Clone, Copy, PartialEq, Eq, Structural)]
pub enum OrderType {
    /// Rests on the book if not fully filled.
    Limit,
    /// Fills what it can, remainder is cancelled.
    Market,
}

/// An order submitted to the book.
#[derive(Debug, Clone, Copy)]
pub struct Order {
    pub id: OrderId,
    pub side: Side,
    /// Price in ticks. Ignored for Market orders.
    pub price: Price,
    pub qty: Qty,
    pub order_type: OrderType,
}

/// One execution between a resting (maker) order and an incoming (taker) order.
#[derive(Debug, Clone, Copy, PartialEq, Eq, Structural)]
pub struct Fill {
    pub maker_id: OrderId,
    pub taker_id: OrderId,
    pub price: Price,
    pub qty: Qty,
    /// Side of the taker.
    pub side: Side,
}

} // verus!
