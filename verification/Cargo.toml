[package]
name = "zonarl"
version = "0.1.0"
edition = "2021"
publish = false

[dependencies]
rand = "=0.10.3"
chacha20 = { version = "=0.10.2", default-features = false, features = ["rng"] }
