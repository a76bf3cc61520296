[package]
name = "tsresolver"
version = "0.1.0"
edition = "2021"
publish = false

[dependencies]
futures = "*"
hickory-net = "*"
hickory-resolver = { version = "*", features = ["system-config", "tokio"] }
itertools = "*"
rand = "*"
reqwest = "*"
thiserror = "*"
tokio = { version = "*", features = ["io-util", "net", "rt", "time"] }
tokio-stream = { version = "*", features = ["time"] }
tracing = "*"
url = "*"
