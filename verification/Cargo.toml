[package]
name = "b64codec"
version = "0.1.0"
edition = "2021"

[dependencies]
bytes = "1"
serde = "1"

[dev-dependencies]
base64 = "0.13"
