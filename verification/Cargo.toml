[package]
name = "avanguard"
version = "0.1.0"
edition = "2021"
publish = false

[dependencies]
tiny-keccak = { version = "=2.0.2", features = ["keccak"] }
secp256k1 = { version = "=0.28.2", features = ["recovery", "rand-std"] }
ethers-core = "=2.0.14"
jsonwebtoken = "=9.3.1"
chrono = "=0.4.45"
rand = "=0.8.8"
serde_json = "=1.0.151"
