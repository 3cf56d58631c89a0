[package]
name = "webhook_batcher"
version = "0.1.0"
edition = "2021"
publish = false

[dependencies]
serde_json = "1"
serde = { version = "1", features = ["derive"] }
hyper = { version = "0.14", features = ["full"] }
hyper-rustls = "0.24"
tokio = { version = "1", features = ["full"] }
