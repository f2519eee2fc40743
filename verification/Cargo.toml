[package]
name = "smart_forward"
version = "0.1.0"
edition = "2021"
publish = false

[dependencies]
anyhow = "1"
chrono = "0.4"
clap = { version = "4", features = ["derive"] }
dashmap = "6"
env_logger = "0.11"
hickory-resolver = "0.24"
log = "0.4"
serde = { version = "1", features = ["derive"] }
serde_json = "1"
serde_yml = "*"
tokio = { version = "1", features = ["full"] }
