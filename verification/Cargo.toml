[package]
name = "evm_assets"
version = "0.1.0"
edition = "2021"
publish = false

[dependencies]
alloy = { version = "1", default-features = false, features = ["std", "sol-types"] }
hex = "0.4"
serde = { version = "1", features = ["derive"] }
serde_json = "1"
