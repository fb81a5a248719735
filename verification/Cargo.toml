[package]
name = "enderpearl"
version = "0.1.0"
edition = "2021"
publish = false

[dependencies]
refractium = { version = "=3.0.12", default-features = false, features = ["hooks", "logging", "proto-http"] }
serde = { version = "=1.0.229", features = ["derive"] }
serde_json = "=1.0.154"
tokio = { version = "=1.54.1", features = ["full"] }
toml = "=1.1.8"
clap = { version = "=4.6.7", features = ["derive"] }
inquire = "=0.9.4"
owo-colors = "=4.4.0"
anyhow = "=1.0.104"
thiserror = "=2.0.21"
tracing = "=0.1.44"
tracing-subscriber = { version = "=0.3.23", features = ["env-filter"] }
reqwest = { version = "=0.12.28", default-features = false, features = ["json", "rustls-tls"] }
dashmap = "=6.2.1"
