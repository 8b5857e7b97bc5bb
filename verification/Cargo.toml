[package]
name = "paymaster"
version = "0.1.0"
edition = "2021"
publish = false

[dependencies]
alloy = { version = "=0.8.3", default-features = false, features = ["contract", "provider-http", "reqwest", "signer-local"] }
axum = { version = "=0.7.9", default-features = false, features = ["http1", "json", "tokio"] }
serde = { version = "1", features = ["derive"] }
serde_json = "=1.0.154"
tokio = { version = "1", features = ["net", "rt-multi-thread"] }
tracing = "0.1"
