[package]
name = "ghost_text"
version = "0.1.0"
edition = "2021"
publish = false

[dependencies]
tokio = { version = "*", features = ["full"] }
tokio-tungstenite = "*"
futures-util = "*"
log = "*"
env_logger = "*"

[dev-dependencies]
serde_json = "*"
