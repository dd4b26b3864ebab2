[package]
name = "repo_sync"
version = "0.1.0"
edition = "2021"
publish = false

[dependencies]
anyhow = "=1.0.104"
base64 = "=0.22.1"
chrono = "=0.4.45"
dirs = "=5.0.1"
serde = { version = "=1.0.229", features = ["derive"] }
serde_json = "=1.0.154"
tauri = { version = "2", default-features = false }
tokio = { version = "=1.54.1", features = ["time", "rt", "macros"] }
wait-timeout = "=0.2.1"
walkdir = "=2.5.0"
