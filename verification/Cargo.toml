[package]
name = "file_range"
version = "0.1.0"
edition = "2021"
publish = false

[dependencies]
futures = "0.3"
futures-util = "0.3"
http = "*"
hyper = { version = "*", default-features = false }
mime = "0.3"
tokio = { version = "*", default-features = false, features = ["fs", "io-util"] }
