[package]
name = "masto_to_tw"
version = "0.1.0"
edition = "2021"
publish = false

[dependencies]
futures = "=0.3.34"
reqwest = { version = "=0.13.5", default-features = false, features = ["stream"] }
serde = { version = "=1.0.229", features = ["derive"] }
serde_json = "=1.0.151"
tokio = { version = "=1.53.2", features = ["io-util"] }
tokio-util = { version = "=0.7.19", features = ["io"] }
twapi-v2 = { version = "=0.27.0", features = ["oauth10a"] }
worker = "=0.8.7"
