[package]
name = "paddock_engine"
version = "0.1.0"
edition = "2021"
publish = false

[dependencies]
cudarc = { version = "0.17", default-features = false, features = ["std", "driver", "dynamic-loading", "cuda-12080"] }
half = "2"
tokio = { version = "1", features = ["sync"] }
tracing = "0.1"
