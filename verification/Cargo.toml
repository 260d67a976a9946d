[package]
name = "clipboard_manager"
version = "0.1.0"
edition = "2021"
publish = false

[dependencies]
sled = "*"
uuid = { version = "*", features = ["v4"] }
chrono = "*"
arboard = "*"
tokio = { version = "*", features = ["rt", "rt-multi-thread", "sync", "time", "macros"] }
serde = { version = "*", features = ["derive"] }
serde_json = "*"
dirs = "*"
env_logger = "*"
log = "*"
anyhow = "*"
image = "*"
