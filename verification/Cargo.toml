[package]
name = "inventory_zk"
version = "0.1.0"
edition = "2021"
publish = false

[dependencies]
ark-bn254 = "=0.5.0"
ark-ff = "=0.5.0"
ark-crypto-primitives = { version = "=0.5.0", features = ["sponge", "r1cs"] }
ark-relations = "=0.5.1"
ark-groth16 = "=0.5.0"
ark-snark = "=0.5.1"
ark-r1cs-std = "=0.5.0"
ark-std = "=0.5.0"
