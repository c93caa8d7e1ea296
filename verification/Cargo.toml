[package]
name = "praxis_apis"
version = "0.1.0"
edition = "2021"
publish = false

[dependencies]
async-trait = "0.1"
base64 = "0.22"
bytes = "1"
futures = "0.3"
http = "1"
percent-encoding = "2"
reqwest = { version = "0.12", default-features = false }
secrecy = "0.10"
serde = { version = "1", features = ["derive"] }
serde_json = { version = "1", features = ["preserve_order"] }
serde_yaml = "0.9"
tokio = { version = "1", features = ["rt", "time", "sync", "macros"] }
tracing = "0.1"
