[package]
name = "http_proxy"
version = "0.1.0"
edition = "2021"
publish = false

[dependencies]
anyhow = "1"
async-trait = "0.1"
axum = "0.7"
bytes = "1"
clap = { version = "*", features = ["derive"] }
env_logger = "0.11"
hickory-resolver = "0.24"
http-body-util = "0.1"
hyper = "1"
log = "0.4"
pingora = { version = "*", features = ["lb", "proxy"] }
pingora-runtime = "*"
serde = { version = "1", features = ["derive"] }
thiserror = "1"
tokio = { version = "1", features = ["full"] }
tower = { version = "0.5", features = ["util"] }
