[package]
name = "biscuit_auth"
version = "0.1.0"
edition = "2021"
publish = false

[dependencies]
ed25519-dalek = "1.0.1"
hex = "0.4"
p256 = { version = "0.13", features = ["ecdsa", "pkcs8", "std"] }
pkcs8 = "0.10"
prost = "0.12"
rand = "0.7"
rand_core = "0.5"
zeroize = "1"
