[package]
name = "glass"
version = "0.4.0"
edition = "2021"
publish = false

[dependencies]
anyhow = "1"
async-trait = "0.1"
chrono = { version = "=0.4.45", features = ["serde"] }
cron = "=0.17.0"
dirs = "*"
dotenvy = "0.15"
serde = { version = "1", features = ["derive"] }
serde_json = { version = "=1.0.154", features = ["preserve_order"] }
serenity = { version = "=0.12.5", default-features = false, features = ["chrono", "client", "gateway", "model", "http", "rustls_backend"] }
tempfile = "3"
tokio = { version = "1", features = ["full"] }
toml = "0.8"
tracing = "0.1"
tracing-subscriber = { version = "0.3", features = ["env-filter"] }
