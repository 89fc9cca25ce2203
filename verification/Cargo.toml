[package]
name = "chat_server"
version = "0.1.0"
edition = "2021"
publish = false

[dependencies]
dashmap = "*"
fastrand = "*"
futures = "*"
tokio = { version = "*", features = ["sync", "net", "rt-multi-thread", "macros", "io-util", "time"] }
tokio-util = { version = "*", features = ["codec"] }
