[package]
name = "metrics_core"
version = "0.1.0"
edition = "2021"
publish = false

[dependencies]
ahash = "*"
blake3 = "*"
bytes = "*"
chrono = "*"
datafusion = { version = "*", default-features = false }
hex = "*"
serde = { version = "*", features = ["derive"] }
serde_json = "*"
