[package]
name = "protohack"
version = "0.1.0"
edition = "2021"
publish = false

[dependencies]
primal = "*"
tokio = { version = "*", features = ["full"] }
log = "*"
env_logger = "*"
serde = { version = "*", features = ["derive"] }
serde_json = "*"
