[package]
name = "buttplug"
version = "0.1.0"
edition = "2021"
publish = false

[dependencies]
async-trait = "0.1"
async-tungstenite = "*"
futures = "0.3"
futures-timer = "3"
tokio = { version = "1", features = ["sync", "rt", "macros", "time"] }
tokio-util = "0.7"
