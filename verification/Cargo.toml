[package]
name = "pow_ledger"
version = "0.1.0"
edition = "2021"
publish = false

[dependencies]
bigdecimal = "0.4"
chrono = { version = "0.4", features = ["serde"] }
ciborium = "0.2"
k256 = { version = "0.13", features = ["ecdsa"] }
num-bigint = "0.4"
serde = { version = "1", features = ["derive"] }
sha2 = "0.10"
uuid = { version = "1", features = ["v4", "serde"] }
