[package]
name = "range_gadgets"
version = "0.1.0"
edition = "2021"
publish = false

[dependencies]
ff = { version = "0.13", features = ["bits"] }
halo2_proofs = "0.3"
