//! Latency benchmark workloads for the order book.
pub mod harness;
pub mod timer;
pub mod scenarios;
