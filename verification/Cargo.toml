[package]
name = "castore"
version = "0.1.0"
edition = "2021"
publish = false

[dependencies]
ring = "*"
hyper = { version = "0.14", features = ["full"] }
tokio = { version = "1", features = ["full"] }
envmnt = "*"
log = "*"
env_logger = "*"
chrono = "*"

[dev-dependencies]
serde_json = "*"
