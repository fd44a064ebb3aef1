[package]
name = "kibi"
version = "0.2.2"
edition = "2021"
publish = false

[dependencies]
melda = "=0.4.4"
serde_json = "=1.0.154"
url = "=2.5.8"
uuid = { version = "1", features = ["v4"] }
