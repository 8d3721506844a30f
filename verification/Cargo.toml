[package]
name = "trade_ledger"
version = "0.1.0"
edition = "2021"
publish = false

[dependencies]
chrono = { version = "0.4", default-features = false, features = ["std"] }
csv = "1"
itertools = "0.13"
serde = { version = "1", features = ["derive"] }
serde_derive = "1"
