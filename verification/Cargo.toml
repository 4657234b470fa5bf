[package]
name = "simetrics_api"
version = "0.1.0"
edition = "2021"
publish = false

[dependencies]
tokenomics-simulator = { version = "=0.5.12", features = ["serde"] }
rust_decimal = "=1.43.0"
chrono = "=0.4.45"
uuid = { version = "=1.27.0", features = ["v4", "serde"] }
serde = { version = "=1.0.229", features = ["derive"] }
serde_json = "=1.0.151"
axum = "=0.8.9"
tokio = { version = "=1.53.2", features = ["rt-multi-thread", "macros", "net"] }
tower-http = { version = "=0.7.1", features = ["cors", "limit"] }
rustis = "=0.27.0"
tracing = "=0.1.44"
tracing-subscriber = "=0.3.23"
