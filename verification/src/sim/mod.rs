//! A simulated stale-quote exchange and the traders that race for its
//! stale quotes.
pub mod exchange;
pub mod strategy;
pub mod trader;
pub mod runner;
