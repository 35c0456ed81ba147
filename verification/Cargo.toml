[package]
name = "qfall_crypto"
version = "0.1.0"
edition = "2021"
publish = false

[dependencies]
qfall-math = "*"
serde = { version = "1", features = ["derive"] }
serde_json = "1"
sha2 = "0.10"
