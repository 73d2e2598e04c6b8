[package]
name = "quorum_node"
version = "0.1.0"
edition = "2021"
publish = false

[dependencies]
hmac = "0.12"
sha2 = "0.10"
serde = { version = "1", features = ["derive"] }
serde_json = "1"
serde_yaml = "0.9"
toml = "0.8"
bincode = "1"
tokio = { version = "1", features = ["full"] }
anyhow = "1"
log = "0.4"
simple_logger = "4"
signal-hook = "0.3"
