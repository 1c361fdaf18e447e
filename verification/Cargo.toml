[package]
name = "tcptransfer"
version = "0.1.0"
edition = "2021"
publish = false

[dependencies]
openssl = "0.10"
tokio = { version = "1", features = ["full"] }
tokio-openssl = "0.6"
