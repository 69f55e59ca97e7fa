[package]
name = "alloy-transport-balancer"
version = "0.2.0"
edition = "2021"
publish = false

[dependencies]
alloy-json-rpc = ">=1.0.38, <1.7"
alloy-transport = ">=1.0.38, <1.7"
alloy-transport-http = { version = ">=1.0.38, <1.7", default-features = false, features = ["reqwest"] }
reqwest = { version = "0.12", default-features = false, features = ["http2", "gzip", "rustls-tls"] }
serde_json = { version = "1", features = ["raw_value"] }
tokio = { version = "1", features = ["rt-multi-thread", "sync", "time"] }
tower = "0.5"
tracing = "0.1"
