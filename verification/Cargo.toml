[package]
name = "static_server"
version = "0.1.0"
edition = "2021"
publish = false

[dependencies]
anyhow = "=1.0.104"
aws-sdk-s3 = "=1.152.0"
axum = "=0.7.9"
dotenv = "=0.15.0"
http = "=1.5.0"
mime_guess = "=2.0.5"
reqwest = { version = "=0.12.28", default-features = false, features = ["rustls-tls", "stream"] }
tokio = { version = "=1.54.1", features = ["full"] }
tower-http = { version = "=0.6.11", features = ["cors", "trace"] }
tracing = "=0.1.44"
tracing-subscriber = { version = "=0.3.23", features = ["fmt", "local-time"] }
