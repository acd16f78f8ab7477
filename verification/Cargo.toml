[package]
name = "next_rs"
version = "0.1.0"
edition = "2021"

[dependencies]
serde_json = "1"
regex = "1"
lazy_static = "1"
futures = "0.3"
tokio = { version = "1", features = ["full"] }
hyper = { version = "1", features = ["http1", "server"] }
hyper-util = { version = "*", features = ["tokio"] }
http-body-util = "*"
multer = "*"
socketioxide = "*"
engineioxide = "*"
