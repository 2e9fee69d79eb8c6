[package]
name = "wm_core"
version = "0.1.0"
edition = "2021"
publish = false

[dependencies]
anyhow = "=1.0.104"
serde = { version = "=1.0.229", features = ["derive"] }
tokio = { version = "=1.53.2", features = ["sync"] }
tracing = "=0.1.44"
uuid = { version = "=1.27.0", features = ["v4", "serde"] }
