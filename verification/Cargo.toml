[package]
name = "cvlib"
version = "0.1.0"
edition = "2021"
publish = false

[dependencies]
base64 = "*"
rand = "*"
uuid = { version = "*", features = ["v4"] }
