[package]
name = "authcore"
version = "0.1.0"
edition = "2021"
publish = false

[dependencies]
jsonwebtoken = { version = "9", default-features = false }
sha2 = "0.10"
rand = "0.8"
chrono = "0.4"
uuid = "1"

[dev-dependencies]
serde_json = "1"
