[package]
name = "nowhere"
version = "0.1.0"
edition = "2021"
publish = false

[dependencies]
anyhow = "1"
percent-encoding = "2"
tokio = { version = "1", features = ["io-util", "time", "rt", "macros"] }
url = "2"
