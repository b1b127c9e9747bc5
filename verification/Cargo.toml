[package]
name = "simple_core"
version = "0.1.0"
edition = "2021"
publish = false

[dependencies]
axum = { version = "=0.8.9", features = ["multipart"] }
base64 = "=0.22.1"
bytes = "=1.12.1"
chrono = { version = "=0.4.45", features = ["serde"] }
futures = "=0.3.34"
hex = "=0.4.3"
hmac = "=0.12.1"
metrics = "=0.24.6"
mime_guess = "=2.0.5"
pgvector = { version = "=0.4.1", features = ["sqlx"] }
serde = { version = "=1.0.229", features = ["derive"] }
serde_json = "=1.0.154"
sha2 = "=0.10.9"
sqlx = { version = "=0.8.6", default-features = false, features = ["runtime-tokio", "postgres", "uuid", "chrono", "json", "macros"] }
tokio = { version = "=1.54.1", features = ["full"] }
tokio-util = { version = "=0.7.20", features = ["io"] }
tracing = "=0.1.44"
unicode-normalization = "=0.1.26"
uuid = { version = "=1.29.0", features = ["v7", "serde"] }
