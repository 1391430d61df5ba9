[package]
name = "himalia"
version = "0.1.0"
edition = "2021"
publish = false

[dependencies]
ring = "0.17"
rust-crypto = "0.2"
bs58 = "0.5"
uuid = { version = "1", features = ["v4"] }
sled = "0.34"
serde = { version = "1", features = ["derive"] }
serde_json = "1"
bincode = "1"

[dev-dependencies]
data-encoding = "2"
