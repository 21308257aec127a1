[package]
name = "payload_prover"
version = "0.1.0"
edition = "2021"
publish = false

[dependencies]
ark-ec = "0.4"
ark-ff = "0.4"
ark-poly = "0.4"
ark-serialize = "0.4"
ark-std = "0.4"
digest = "0.10"
serde = { version = "1.0", features = ["derive"] }

[dev-dependencies]
ark-bls12-381 = "0.4"
sha2 = "0.10"
