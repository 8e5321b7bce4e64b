[package]
name = "ppg"
version = "0.1.0"
edition = "2021"
publish = false

[dependencies]
nostr-sdk = "=0.34.0"
nostr-database = "=0.34.0"
nostr-rocksdb = "=0.34.0"
futures = "=0.3.34"
tokio = { version = "=1.53.2", features = ["full"] }
warp = "=0.3.7"
serde = "=1.0.229"
serde_derive = "=1.0.229"
