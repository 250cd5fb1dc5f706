[package]
name = "dhttp"
version = "0.1.0"
edition = "2021"

[dependencies]
pin-project-lite = "=0.2.17"
tokio = { version = "=1.53.2", features = ["fs", "io-util"] }
