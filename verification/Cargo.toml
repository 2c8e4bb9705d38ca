[package]
name = "netgate"
version = "0.1.0"
edition = "2021"
publish = false

[dependencies]
md5 = "0.7"
hmac = "0.12"
sha2 = "0.10"
flate2 = "1"
aes = "0.8"
cfb8 = "0.8"
tokio = { version = "1", features = ["rt-multi-thread", "net", "io-util", "sync", "time"] }
tracing = "0.1"
tracing-subscriber = "0.3"

[dev-dependencies]
serde_json = "1"
