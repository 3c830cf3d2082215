[package]
name = "deribit"
version = "0.1.0"
edition = "2021"
publish = false

[dependencies]
futures = "*"
tokio = { version = "*", features = ["rt", "net", "macros"] }
tokio-tungstenite = "*"
tungstenite = "*"
