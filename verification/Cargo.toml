[package]
name = "anytalk"
version = "0.1.0"
edition = "2021"
publish = false

[dependencies]
serde_json = "*"
serde = { version = "*", features = ["derive"] }
tokio = { version = "*", features = ["full"] }
tokio-tungstenite = { version = "*", features = ["rustls-tls-native-roots"] }
futures-util = "*"
uuid = { version = "*", features = ["v4"] }
rustls = { version = "*", default-features = false, features = ["ring", "logging", "std", "tls12"] }
cpal = "*"
tracing = "*"
tracing-appender = "*"
tracing-subscriber = { version = "*", features = ["env-filter"] }
