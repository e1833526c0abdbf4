[package]
name = "nestrs"
version = "0.1.0"
edition = "2021"
publish = false

[dependencies]
jsonwebtoken = { version = "=11.1.0", features = ["rust_crypto"] }
serde = { version = "=1.0.229", features = ["derive"] }
serde_json = "=1.0.154"
uuid = "=1.29.0"
anyhow = "=1.0.104"
thiserror = "=2.0.21"
tokio = { version = "=1.54.1", features = ["rt", "rt-multi-thread", "macros", "sync", "signal", "time"] }
tokio-util = "=0.7.20"
inventory = "=0.3.25"
figment = { version = "=0.10.19", features = ["env", "toml"] }
tracing = "=0.1.44"
sea-query = { version = "0.32", default-features = false }
