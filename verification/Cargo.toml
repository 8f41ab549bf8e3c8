[package]
name = "price_oracle"
version = "0.1.0"
edition = "2021"
publish = false

[dependencies]
# `testutils` provides the standalone `Env::default()` host that the SHA-256
# wrapper in src/crypto.rs hashes with.
soroban-sdk = { version = "=29.0.1", features = ["testutils"] }
ed25519-dalek = "=2.2.0"
