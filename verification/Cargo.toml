[package]
name = "serverless_core"
version = "0.1.0"
edition = "2021"
publish = false

[dependencies]
rand = "=0.8.8"
hyper = { version = "=0.14.32", features = ["server", "http1", "tcp"] }
tokio = { version = "=1.54.1", features = ["rt-multi-thread", "macros", "sync", "time"] }
tokio-util = { version = "=0.7.20", features = ["rt"] }
metrics = "=0.20.1"
metrics-exporter-prometheus = "=0.11.0"
log = "=0.4.34"
dotenv = "=0.15.0"
mysql = "=23.0.1"
rust-s3 = "=0.32.3"
redis = "0.22"
serde_json = "=1.0.154"
