[package]
name = "jarvis"
version = "0.1.0"
edition = "2021"
publish = false

[dependencies]
rig-core = "=0.36.0"
serde = { version = "=1.0.229", features = ["derive"] }
serde_json = "=1.0.154"
uuid = { version = "=1.29.0", features = ["v4"] }
chrono = "=0.4.45"
tokio = { version = "=1.54.1", features = ["full"] }
tracing = "=0.1.44"
tracing-subscriber = "=0.3.23"
futures = "=0.3.34"
anyhow = "=1.0.104"
async-trait = "=0.1.92"
diesel = { version = "=2.3.14", features = ["sqlite"] }
diesel-async = { version = "=0.9.2", features = ["sqlite", "sync-connection-wrapper"] }
pdf_oxide = "=0.3.78"
