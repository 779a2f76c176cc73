[package]
name = "fastcgi-client"
version = "0.9.0"
edition = "2021"
publish = false

[dependencies]
thiserror = "1"
tokio = { version = "1", features = ["io-util", "sync", "time"] }
tokio-io = "*"
tracing = "0.1"
