[package]
name = "vertex-ai-proxy"
version = "0.1.0"
edition = "2021"
publish = false

[dependencies]
async-stream = "0.3"
axum = "=0.8.9"
chrono = "=0.4.45"
crossterm = "=0.28.1"
futures = "0.3"
ratatui = "=0.29.0"
reqwest = { version = "=0.12.28", default-features = false, features = ["json", "stream", "rustls-tls"] }
rustls = { version = "=0.23.46", default-features = false, features = ["ring", "std"] }
serde = { version = "1", features = ["derive"] }
serde_json = "=1.0.154"
tokio = { version = "1", features = ["full"] }
tokio-stream = "0.1"
uuid = { version = "=1.29.0", features = ["v4"] }
