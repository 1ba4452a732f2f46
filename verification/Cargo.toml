[package]
name = "ren_desktop"
version = "0.1.0"
edition = "2021"
publish = false

[dependencies]
aes-gcm = "0.10"
base64 = "0.22"
rand = "0.8"
hostname = "0.4"
dirs = "5"
serde = { version = "1", features = ["derive"] }
serde_json = "1"
thiserror = "1"
reqwest = { version = "0.12", default-features = false, features = ["blocking", "rustls-tls"] }
tokio = { version = "1", features = ["rt-multi-thread", "net", "io-util", "time"] }
local-ip-address = "0.6"
tracing = "0.1"
tracing-subscriber = "0.3"
tracing-appender = "0.2"
