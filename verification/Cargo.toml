[package]
name = "fraud_score"
version = "0.1.0"
edition = "2021"
publish = false

[dependencies]
axum = "0.7"
hyper = { version = "1", features = ["server", "http1", "http2"] }
hyper-util = { version = "0.1", features = ["tokio", "server", "server-auto", "service"] }
memmap2 = "0.9"
mimalloc = "0.1"
serde = { version = "1", features = ["derive"] }
serde_json = "1"
tokio = { version = "1", features = ["full"] }
tower = "0.5"
