[package]
name = "coordinator"
version = "0.1.0"
edition = "2021"
publish = false

[dependencies]
async-channel = "2"
dotenvy = "0.15"
opentelemetry = "*"
opentelemetry-appender-tracing = "*"
opentelemetry-otlp = { version = "*", features = ["grpc-tonic", "trace", "metrics", "logs"] }
opentelemetry_sdk = "*"
rand = "0.10"
reqwest = "*"
serde = { version = "1", features = ["derive"] }
serde_json = "1"
tokio = { version = "1", features = ["full"] }
tracing = "0.1"
tracing-appender = "0.2"
tracing-opentelemetry = "*"
tracing-subscriber = { version = "0.3", features = ["env-filter"] }
