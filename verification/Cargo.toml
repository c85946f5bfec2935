[package]
name = "tba"
version = "0.1.0"
edition = "2021"
publish = false

[dependencies]
rustc-serialize = "*"
hyper = { version = "*", features = ["client", "http1"] }
hyper-util = { version = "*", features = ["client", "client-legacy", "http1", "tokio"] }
http-body-util = "*"
tokio = { version = "*", features = ["rt", "net", "time"] }
