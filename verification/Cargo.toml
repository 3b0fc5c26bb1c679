[package]
name = "porter"
version = "0.1.0"
edition = "2021"
publish = false

[dependencies]
rmcp = "=0.14.0"
serde = { version = "1", features = ["derive"] }
serde_json = "1"
thiserror = "2"
tokio = { version = "1", features = ["sync"] }
tokio-util = "0.7"
tracing = "0.1"

[dev-dependencies]
toml = "0.8"
