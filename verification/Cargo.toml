[package]
name = "learn_rust"
version = "0.1.0"
edition = "2021"
publish = false

[dependencies]
bytes = "1"
chrono = "0.4"
crossbeam = "0.8"
futures = "0.3"
mini-redis = "0.4"
tokio = { version = "1", features = ["full"] }
