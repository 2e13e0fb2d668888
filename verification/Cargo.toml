[package]
name = "binance_l2"
version = "0.1.0"
edition = "2021"
publish = false

[dependencies]
tokio = { version = "*", features = ["rt-multi-thread", "macros"] }
tokio-tungstenite = "*"
tungstenite = "*"
futures-util = "*"
url = "*"
reqwest = { version = "*", default-features = false }
serde = { version = "*", features = ["derive"] }
serde_json = "*"
