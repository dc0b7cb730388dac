[package]
name = "stock_ticker"
version = "0.1.0"
edition = "2021"
publish = false

[dependencies]
chrono = "0.4"
encoding_rs = "0.8"
serde = { version = "1", features = ["derive"] }
serde_json = "1"
reqwest = { version = "0.12", features = ["blocking"] }
