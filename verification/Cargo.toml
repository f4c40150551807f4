[package]
name = "hdwallet_split"
version = "0.1.0"
edition = "2021"
publish = false

[dependencies]
bip39 = "=3.0.0"
hex = "=0.4.3"
rand = "=0.8.8"
secp256k1 = "=0.33.1"
serde = { version = "1", features = ["derive"] }
serde-wasm-bindgen = "*"
sha2 = "=0.10.9"
sha3 = "=0.10.9"
wasm-bindgen = "*"

[dev-dependencies]
hdwallet = "*"
