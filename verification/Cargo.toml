[package]
name = "schnorr_core"
version = "0.1.0"
edition = "2021"
publish = false

[dependencies]
ark-bn254 = "=0.5.0"
ark-ed-on-bn254 = "=0.5.0"
ark-ff = "=0.5.0"
ark-std = { version = "=0.5.0", features = ["getrandom"] }
light-poseidon = "=0.4.0"
num-bigint = "=0.4.8"
sha2 = "=0.10.9"
serde_json = "=1.0.151"
