[package]
name = "bifrost_dns"
version = "0.1.0"
edition = "2021"
publish = false

[dependencies]
hickory-proto = "*"
data-encoding = "2"
uuid = { version = "1", features = ["v4"] }
serde = { version = "1", features = ["derive"] }
serde_json = "1"
tokio = { version = "1", features = ["full"] }
axum = "*"
clap = { version = "4", features = ["derive"] }
tracing = "0.1"
tracing-subscriber = { version = "0.3", features = ["env-filter"] }
