[package]
name = "consensus_core"
version = "0.1.0"
edition = "2021"
publish = false

[dependencies]
sha2 = "*"
sha3 = "*"
num_cpus = "*"
serde = { version = "*", features = ["derive"] }
serde_json = "*"
ciborium = "*"
clap = { version = "*", features = ["derive"] }
wasm-bindgen = "*"
