[package]
name = "linked_hash_map_rs"
version = "0.1.0"
edition = "2021"
publish = false

[dependencies]
serde = "=1.0.229"

[dev-dependencies]
ahash = "=0.8.12"
serde_json = "1"
