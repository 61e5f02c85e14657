[package]
name = "rusty_zenith"
version = "0.1.0"
edition = "2021"
publish = false

[dependencies]
base64 = "0.13"
httparse = "1"
httpdate = "1"
path-clean = "0.1"
serde = { version = "1", features = ["derive"] }
serde_json = "1"
tokio = { version = "1", features = ["rt-multi-thread", "macros", "net", "io-util", "sync", "time"] }
tokio-native-tls = "0.3"
url = "2"
urlencoding = "1"
uuid = { version = "0.8", features = ["v4", "serde"] }
