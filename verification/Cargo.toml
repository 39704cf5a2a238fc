[package]
name = "sf"
version = "0.1.0"
edition = "2021"
publish = false

[dependencies]
anyhow = "1"
axum = { version = "0.7", features = ["multipart"] }
base64 = "0.22"
jni = "0.21"
ndk-context = "0.1"
qrcode = { version = "0.14", default-features = false, features = ["svg"] }
tokio = { version = "1", features = ["full"] }
tokio-util = { version = "0.7", features = ["io"] }
