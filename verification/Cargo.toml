[package]
name = "entros_mopro"
version = "0.1.0"
edition = "2021"
publish = false

[dependencies]
num-bigint = "0.4"
sha2 = "0.10"
serde_json = "1"
ark-bn254 = "0.5"
ark-ec = "0.5"
ark-ff = "0.5"
thiserror = "2"
circom-prover = "0.1"
mopro-ffi = "0.3"
uniffi = "0.29"
rust-witness = "0.1"
