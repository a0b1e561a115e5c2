[package]
name = "utxo_chain"
version = "0.1.0"
edition = "2021"
publish = false

[dependencies]
sha2 = "0.10"
ripemd = "0.1"
bs58 = "0.5"
ring = "0.17"
chrono = "0.4"
hex = "0.4"
bincode = "1"
serde = { version = "1", features = ["derive"] }
sled = "0.34"
