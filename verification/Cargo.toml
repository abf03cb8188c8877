[package]
name = "rust_agent"
version = "0.1.0"
edition = "2021"
publish = false

[dependencies]
regex = "=1.13.1"
sha2 = "=0.10.9"
anyhow = "=1.0.104"
axum = "=0.8.9"
chrono = "=0.4.45"
config = "=0.15.27"
futures = "=0.3.34"
rig-core = { version = "=0.40.0", default-features = false }
rmcp = { version = "=3.8.0", features = ["server", "macros", "transport-streamable-http-server"] }
serde = { version = "=1.0.229", features = ["derive"] }
serde_json = "=1.0.154"
thiserror = "=2.0.21"
tokio = { version = "=1.54.1", features = ["full"] }
tokio-util = "=0.7.20"
uuid = { version = "=1.29.0", features = ["v7"] }
walkdir = "=2.5.0"
