[package]
name = "ledger_storage"
version = "0.1.0"
edition = "2021"
publish = false

[dependencies]
borsh = "1"
serde = { version = "1", features = ["derive"] }
toml = "*"
