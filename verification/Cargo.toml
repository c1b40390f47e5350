[package]
name = "dkim"
version = "0.1.0"
edition = "2021"
publish = false

[dependencies]
base64 = "0.22"
rsa = "0.9"
ed25519-dalek = "2"
sha1 = { version = "0.10", features = ["oid"] }
sha2 = { version = "0.10", features = ["oid"] }
mailparse = "*"
serde_json = "1"
futures = "0.3"
trust-dns-resolver = "0.23"

[dev-dependencies]
rand = "0.8"
