[package]
name = "spark_server"
version = "0.1.0"
edition = "2021"
publish = false

[dependencies]
anyhow = "1"
axum = "*"
futures = "0.3"
minijinja = { version = "2", features = ["json"] }
serde = { version = "1", features = ["derive"] }
serde_json = "1"
tokenizers = { version = "*", default-features = false, features = ["fancy-regex"] }
tokio = { version = "1", features = ["rt", "sync", "time", "macros"] }
tokio-stream = "0.1"
tracing = "0.1"
