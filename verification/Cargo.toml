[package]
name = "ubidium"
version = "0.1.0"
edition = "2021"
publish = false

[dependencies]
tonic = { version = "0.14", features = ["tls-ring"] }
