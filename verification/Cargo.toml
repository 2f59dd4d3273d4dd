[package]
name = "ceno_crypto_primitives"
version = "0.1.0"
edition = "2021"
publish = false

[dependencies]
elliptic-curve = { version = "0.13", features = ["arithmetic", "ecdh", "sec1"] }

[dev-dependencies]
k256 = { version = "0.13", default-features = false, features = ["arithmetic"] }
