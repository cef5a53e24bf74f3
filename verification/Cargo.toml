[package]
name = "minikv"
version = "0.1.0"
edition = "2021"
publish = false

[dependencies]
async-std = "=1.13.2"
bytes = "=1.12.1"
libp2p = { version = "=0.56.0", default-features = false }
tokio = { version = "=1.54.1", features = ["full"] }

[dev-dependencies]
mini-redis = "=0.4.1"
