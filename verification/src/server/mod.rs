//! The exchange as a network service: the wire protocol and the order
//! gateway's rules.
pub mod wire;
pub mod gateway;
pub mod pending;
