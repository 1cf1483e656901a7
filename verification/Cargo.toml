[package]
name = "matching_engine"
version = "0.1.0"
edition = "2021"
publish = false

[dependencies]
rustc-hash = "2"
clap = { version = "4", features = ["derive"] }
hdrhistogram = "7"
libc = "0.2"
mimalloc = "0.1"
rand = { version = "0.8", features = ["small_rng"] }
