[package]
name = "fed_coordinator"
version = "0.1.0"
edition = "2021"
publish = false

[dependencies]
near-account-id = "=3.0.0"
chrono = "=0.4.45"
serde = { version = "1", features = ["derive"] }
serde_json = "1"
anyhow = "1"
clap = { version = "4", features = ["derive", "env"] }
tokio = { version = "1", features = ["rt-multi-thread", "sync", "time", "macros"] }
tracing = "0.1"
near-sdk = { version = "=5.29.1", features = ["non-contract-usage"] }
