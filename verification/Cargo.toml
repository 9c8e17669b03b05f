[package]
name = "profit_ledger"
version = "0.1.0"
edition = "2021"
publish = false

[dependencies]
secret-cosmwasm-std = "1.1"
secret-cosmwasm-storage = "1.1"
secret-toolkit = "0.10"
serde = { version = "1", features = ["derive"] }
schemars = "0.8"
thiserror = "1"
