[package]
name = "czero"
version = "0.1.0"
edition = "2021"
publish = false

[dependencies]
chrono = "0.4"
ed25519-dalek = "2"
serde_json = "1"
sha3 = "0.10"
z3 = "*"
