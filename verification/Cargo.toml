[package]
name = "fleet-router"
version = "0.2.0"
edition = "2021"
publish = false

[dependencies]
anyhow = "1"
clap = "4"
color-print = "0.3"
futures = "0.3"
rs_abieos = { version = "*", default-features = false, features = ["rust-backend"] }
serde = { version = "1", features = ["derive"] }
serde_json = "1"
tokio = { version = "1", features = ["full"] }
tokio-tungstenite = "*"
tracing = "0.1"
tracing-subscriber = { version = "0.3", features = ["env-filter"] }
