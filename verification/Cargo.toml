[package]
name = "kv_router"
version = "0.1.0"
edition = "2021"
publish = false

[dependencies]
rand = "=0.9.5"
serde = { version = "1", features = ["derive"] }
serde_json = "1"
tokio = { version = "1", features = ["sync", "time", "macros", "rt"] }
tokio-util = "0.7"
anyhow = "1"
thiserror = "2"
tracing = "0.1"
url = "2"
async-nats = "*"
