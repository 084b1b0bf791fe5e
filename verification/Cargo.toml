[package]
name = "deepseek_adapter"
version = "0.1.0"
edition = "2021"
publish = false

[dependencies]
serde_json = "1"
reqwest = { version = "0.12", default-features = false, features = ["stream"] }
url = "2"
futures-util = "0.3"
