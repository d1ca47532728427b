[package]
name = "moray_records"
version = "0.1.0"
edition = "2021"
publish = false

[dependencies]
base64 = "0.13"
md5 = "0.7"
uuid = { version = "1", features = ["v4"] }
