[package]
name = "mainline_core"
version = "0.1.0"
edition = "2021"
publish = false

[dependencies]
getrandom = "0.3"
lru = "0.16"
serde_bencode = "0.2"
thiserror = "2"
tracing = "0.1"

[dev-dependencies]
ed25519-dalek = "2"
