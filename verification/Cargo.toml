[package]
name = "lishdb"
version = "0.1.0"
edition = "2021"
publish = false

[dependencies]
chrono = "=0.4.45"
serde = { version = "1", features = ["derive"] }
serde_json = "1"
bincode = "1"
serde-binary = "*"
log = "0.4"
env_logger = "*"
anyhow = "1"
colored = "*"
futures-util = { version = "0.3", features = ["sink"] }
tokio = { version = "1", features = ["full"] }
tokio-tungstenite = "*"
