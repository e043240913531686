[package]
name = "rust_request"
version = "0.1.0"
edition = "2021"
publish = false

[dependencies]
anyhow = "=1.0.104"
aws-config = { version = "=1.13.0", features = ["behavior-version-latest"] }
aws-sdk-dynamodb = { version = "=1.136.0", features = ["behavior-version-latest"] }
axum = "=0.8.9"
axum-extra = { version = "=0.12.6", features = ["cookie"] }
chrono = "=0.4.45"
cookie = "=0.18.2"
open = "=5.4.5"
random-string = "=1.1.0"
reqwest = { version = "=0.13.5", features = ["form"] }
serde = { version = "=1.0.229", features = ["derive"] }
serde_json = "=1.0.154"
tokio = { version = "=1.54.1", features = ["full"] }
url = "=2.5.8"
