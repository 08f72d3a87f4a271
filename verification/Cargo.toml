[package]
name = "perp_engine"
version = "0.1.0"
edition = "2021"
publish = false

[dependencies]
rust_decimal = "*"
serde = { version = "*", features = ["derive"] }
serde_json = "*"
redis = { version = "*", features = ["tokio-comp"] }
tokio = { version = "*", features = ["rt-multi-thread", "macros", "time", "fs", "sync"] }
anyhow = "*"
chrono = "*"
tracing = "*"
tracing-subscriber = "*"
