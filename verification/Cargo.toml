[package]
name = "liveview_native_core"
version = "0.1.0"
edition = "2021"
publish = false

[dependencies]
url = "2"
log = "0.4"
serde = { version = "1", features = ["derive"] }
serde_json = "1"
env_logger = "*"
