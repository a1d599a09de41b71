[package]
name = "replaytrim"
version = "0.1.0"
edition = "2021"
publish = false

[dependencies]
sha2 = "0.10"
base64 = "0.22"
uuid = { version = "1", features = ["v4"] }
serde = { version = "1", features = ["derive"] }
serde_json = "1"
tokio = { version = "1", features = ["full"] }
tokio-tungstenite = "0.24"
futures-util = "0.3"
axum = "0.7"
anyhow = "1"
