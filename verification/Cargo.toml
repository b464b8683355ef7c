[package]
name = "pubsub_broker"
version = "0.1.0"
edition = "2021"
publish = false

[dependencies]
tokio = { version = "1", features = ["rt-multi-thread", "net", "io-util", "sync", "macros"] }
futures = "0.3"
uuid = { version = "1", features = ["v4"] }
