[package]
name = "stockbit_chatbot"
version = "0.1.0"
edition = "2021"
publish = false

[dependencies]
url = "2"
request-http-parser = "*"
serde = { version = "1", features = ["derive"] }
serde_json = "1"
tokio = { version = "1", features = ["full"] }
native-tls = "*"
tokio-native-tls = "*"
web-push = "*"
dotenvy = "*"
anyhow = "1"
