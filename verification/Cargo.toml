[package]
name = "bolt_hedger"
version = "0.1.0"
edition = "2021"
publish = false

[dependencies]
base64 = "0.21"
chrono = "0.4"
crc32fast = "1"
crossbeam = "0.8"
futures-util = "0.3"
hmac = "0.12"
log = "0.4"
redis = { version = "0.23", features = ["tokio-comp"] }
serde = { version = "1", features = ["derive"] }
serde_json = "1"
sha2 = "0.10"
simplelog = "0.12"
tokio = { version = "1", features = ["full"] }
tokio-tungstenite = "0.21"
url = "2"
uuid = { version = "1", features = ["v4"] }
