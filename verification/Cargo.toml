[package]
name = "revocation_bench"
version = "0.1.0"
edition = "2021"
publish = false

[dependencies]
unknown_order = { version = "=0.10.1", default-features = false, features = ["openssl"] }
blake3 = "=1.8.7"
p256 = { version = "=0.13.2", features = ["ecdsa"] }
serde = { version = "=1.0.229", features = ["derive"] }
serde_json = "=1.0.154"
ark-bls12-381 = "=0.4.0"
ark-ec = "=0.4.2"
ark-ff = "=0.4.2"
ark-serialize = "=0.4.2"
ark-std = "=0.4.0"
blake2 = "=0.10.6"
sha2 = "=0.10.9"
vb_accumulator = "=0.29.0"
bbs_plus = "=0.25.0"
bulletproofs_plus_plus = "=0.9.0"
proof_system = "=0.34.0"
short_group_sig = "=0.7.0"
dock_crypto_utils = "=0.23.0"
