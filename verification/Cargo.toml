[package]
name = "ussr"
version = "0.1.0"
edition = "2021"
publish = false

[dependencies]
md5 = "0.7"
sha256 = "1"
rand = "0.8"
tokio = { version = "1", features = ["full"] }
serde = { version = "1", features = ["derive"] }
serde_json = "1"
fastnbt = "2"
confy = "*"
base64 = "*"
