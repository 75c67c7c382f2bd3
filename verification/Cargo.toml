[package]
name = "orderbook"
version = "0.1.0"
edition = "2021"
publish = false

[dependencies]
pricelevel = "=0.4.2"
dashmap = "6"
uuid = { version = "1", features = ["v4"] }
serde = { version = "1", features = ["derive"] }
