//! A price-time priority order book and matching engine, with a simulated
//! stale-quote exchange built on top of it.
pub mod types;

pub use types::{Fill, Order, OrderId, OrderType, Price, Qty, Side};
pub mod arena;
pub mod model;
pub mod fxmap;
pub mod orderbook;
pub mod laws;

pub use orderbook::OrderBook;
pub mod sim;
pub mod server;
pub mod bench;
pub mod arg;
pub mod fmt;
