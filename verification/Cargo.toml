[package]
name = "blockchain"
version = "0.1.0"
edition = "2021"
publish = false

[dependencies]
chrono = "*"
crypto-hash = "*"
sha2 = "*"
hex = "*"

[dev-dependencies]
serde_json = "*"
