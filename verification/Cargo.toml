[package]
name = "video_ingest"
version = "0.1.0"
edition = "2021"
publish = false

[dependencies]
chrono = "=0.4.45"
walkdir = "=2.5.0"
notify = "=6.1.1"
tokio = { version = "=1.54.1", features = ["full"] }
sqlx = { version = "=0.7.4", features = ["sqlite", "runtime-tokio"] }
pyo3 = { version = "=0.21.2", features = ["auto-initialize"] }
axum = "=0.6.20"
askama = "=0.12.1"
serde = { version = "=1.0.229", features = ["derive"] }
serde_json = "=1.0.154"
ngrok = { version = "=0.13.1", features = ["axum"] }
