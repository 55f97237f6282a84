[package]
name = "block_events"
version = "0.1.0"
edition = "2021"
publish = false

[dependencies]
anyhow = "*"
async-stream = "*"
bitcoin = "*"
clap = { version = "*", features = ["derive"] }
env_logger = "*"
futures-util = "*"
log = "*"
reqwest = { version = "*", default-features = false }
serde = { version = "*", features = ["derive"] }
serde_json = "*"
tokio = { version = "*", features = ["macros", "rt-multi-thread", "time", "net"] }
tokio-stream = "*"
tokio-tungstenite = "*"
url = "*"
