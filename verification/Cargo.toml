[package]
name = "spa_bench"
version = "0.1.0"
edition = "2021"
publish = false

[dependencies]
aes = "0.8"
blake3 = "1"
bls12_381 = "0.8"
chacha20poly1305 = "0.10"
cipher = "0.4"
curve25519-dalek = { version = "4", features = ["rand_core"] }
ed25519-dalek = { version = "2", features = ["rand_core"] }
ff = "0.13"
num-bigint = { version = "0.4", features = ["rand", "serde"] }
num-integer = "0.1"
num-traits = "0.2"
ofb = "0.6"
openssl = "0.10"
rand = "0.8"
rand_chacha = "0.3"
rand_core = "0.6"
serde = { version = "1", features = ["derive"] }
serde_json = "1"
sha2 = "0.10"
thiserror = "1"
x25519-dalek = { version = "2", features = ["static_secrets"] }
