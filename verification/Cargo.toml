[package]
name = "find_nearby_twitterer"
version = "0.1.0"
edition = "2021"
publish = false

[dependencies]
anyhow = "1"
base64 = "0.13"
chrono = "0.4"
clap = "3"
colored = "2"
hmac-sha1 = "*"
percent-encoding = "2"
regex = "1"
reqwest = { version = "0.11", features = ["json"] }
serde = { version = "1", features = ["derive"] }
serde_json = "1"
tokio = { version = "1", features = ["full"] }
