[package]
name = "lisa"
version = "0.1.0"
edition = "2021"
publish = false

[dependencies]
serde = { version = "=1.0.229", features = ["derive"] }
serde_json = "=1.0.154"
toml = "=0.8.23"
sha2 = "=0.10.9"
base64 = "=0.22.1"
rand = "=0.9.5"
blake3 = "=1.8.7"
anyhow = "1"
thiserror = "2"
tokio = { version = "1", features = ["full"] }
futures = "0.3"
async-stream = "0.3"
axum = "0.8"
zbus = { version = "5", default-features = false, features = ["tokio", "blocking-api"] }
reqwest = { version = "0.12", default-features = false, features = ["json", "rustls-tls"] }
ureq = { version = "3", features = ["json"] }
rusqlite = { version = "*", features = ["bundled"] }
clap = { version = "4", features = ["derive"] }
tracing = "0.1"
tracing-subscriber = { version = "0.3", features = ["env-filter", "fmt"] }
zstd = "0.13"
