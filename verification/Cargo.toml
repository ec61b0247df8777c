[package]
name = "rusty_kyber"
version = "0.1.0"
edition = "2021"
publish = false

[dependencies]
sha3 = "0.10"
rand_core = "0.6"
zeroize = { version = "1", features = ["derive"] }
serde = { version = "1", features = ["derive"] }
