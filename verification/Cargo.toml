[package]
name = "chatty"
version = "0.1.0"
edition = "2021"
publish = false

[dependencies]
async-trait = "0.1"
base64 = "0.13"
tokio = { version = "1", features = ["full"] }
