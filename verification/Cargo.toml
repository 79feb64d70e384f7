[package]
name = "msearchdb"
version = "0.1.0"
edition = "2021"
publish = false

[dependencies]
axum = "=0.7.9"
clap = { version = "=4.6.7", features = ["derive"] }
crossterm = "=0.28.1"
dashmap = "=6.2.1"
futures = "=0.3.34"
http = "=1.5.0"
jieba-rs = "=0.7.4"
moka = { version = "=0.12.16", features = ["future"] }
opentelemetry = "=0.27.1"
opentelemetry-otlp = "=0.27.0"
opentelemetry_sdk = { version = "=0.27.1", features = ["rt-tokio"] }
prometheus = "=0.13.4"
prost = "=0.13.5"
ratatui = "=0.29.0"
rustls = { version = "=0.23.46", default-features = false, features = ["ring", "std"] }
serde = { version = "=1.0.229", features = ["derive"] }
serde_json = "=1.0.154"
tantivy = "=0.22.1"
tar = "=0.4.46"
tokio = { version = "=1.54.1", features = ["full"] }
tokio-stream = "=0.1.19"
tokio-util = { version = "=0.7.20", features = ["io"] }
tonic = { version = "=0.12.3", features = ["tls"] }
tower-http = { version = "=0.5.2", features = ["compression-gzip", "timeout"] }
tracing = "=0.1.44"
tracing-appender = "=0.2.5"
tracing-opentelemetry = "=0.28.0"
tracing-subscriber = { version = "=0.3.23", features = ["env-filter", "json"] }
uuid = { version = "=1.29.0", features = ["v4"] }
zstd = "=0.13.4"
