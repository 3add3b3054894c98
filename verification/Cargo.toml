[package]
name = "novelbase-memory-mcp"
version = "0.1.0"
edition = "2021"
publish = false

[dependencies]
serde = { version = "=1.0.229", features = ["derive"] }
serde_json = "=1.0.154"
rusqlite = { version = "=0.31.0", features = ["bundled", "functions"] }
sha2 = "=0.10.9"
clap = { version = "=4.6.7", features = ["derive"] }
anyhow = "=1.0.104"
thiserror = "=1.0.69"
log = "=0.4.35"
env_logger = "=0.11.11"
rayon = "=1.12.0"
tokio = { version = "=1.54.1", features = ["rt-multi-thread", "net", "macros"] }
axum = "=0.7.9"
fastembed = { version = "=7.5.0", default-features = false, features = ["ort-load-dynamic", "hf-hub-rustls-tls"] }
