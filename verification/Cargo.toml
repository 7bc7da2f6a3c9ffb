[package]
name = "rust_pot"
version = "0.1.0"
edition = "2021"
publish = false

[dependencies]
ark-bn254 = "=0.3.0"
ark-ec = "=0.3.0"
ark-ff = "=0.3.0"
ark-std = "=0.3.0"
rand = "0.8"
tiny-keccak = { version = "=2.0.2", features = ["keccak"] }
