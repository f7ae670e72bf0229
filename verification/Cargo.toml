[package]
name = "proofframe"
version = "0.1.0"
edition = "2021"
publish = false

[dependencies]
arrow = { version = "*", default-features = false, features = ["ipc", "csv"] }
base64 = "0.22"
blake3 = "1"
chrono = "0.4"
ed25519-dalek = "2"
getrandom = "*"
regex = "1"
serde = { version = "1", features = ["derive"] }
serde_json = "1"
serde_json_canonicalizer = "*"
tempfile = "3"
