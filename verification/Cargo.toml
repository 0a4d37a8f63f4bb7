[package]
name = "bridge46"
version = "0.1.0"
edition = "2021"
publish = false

[dependencies]
tokio = { version = "*", features = ["full"] }
log = "*"
env_logger = "*"
hickory-client = "*"
hickory-proto = "*"
