[package]
name = "plonkish"
version = "0.1.0"
edition = "2021"
publish = false

[dependencies]
halo2_proofs = "=0.3.5"
halo2_gadgets = "=0.5.0"
lazy_static = "=1.5.1"
sinsemilla = { version = "=0.1.0", features = ["test-dependencies"] }
