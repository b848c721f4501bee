[package]
name = "universalis_alerts"
version = "0.1.0"
edition = "2021"
publish = false

[dependencies]
bson = "2"
cached = "0.34"
dotenv = "0.15"
env_logger = "0.9"
error-chain = "0.12"
futures-util = "0.3"
itertools = "0.10"
log = "0.4"
metrics = "0.18"
metrics-exporter-prometheus = "0.9"
mysql_async = "0.30"
opentelemetry = "0.17"
opentelemetry-jaeger = "0.16"
reqwest = "0.11"
serde = { version = "1", features = ["derive"] }
serde_json = "1"
tokio = { version = "1", features = ["macros", "rt-multi-thread"] }
tokio-tungstenite = { version = "0.17", features = ["native-tls"] }
tracing = "0.1"
tracing-opentelemetry = "0.17"
tracing-subscriber = "0.3"
tungstenite = "0.17"
url = "2"
