[package]
name = "nltt"
version = "0.1.0"
edition = "2021"
publish = false

[dependencies]
linked-hash-map = "*"
rand = "*"
uuid = { version = "*", features = ["v4"] }
tokio = { version = "*", features = ["full"] }
tokio-util = { version = "*", features = ["codec"] }
tokio-stream = "*"
futures = "*"
bytes = "*"
log = "*"
env_logger = "*"
