[package]
name = "o2a"
version = "0.1.0"
edition = "2021"
publish = false

[dependencies]
serde_json = "1"

[dev-dependencies]
rand = "0.9"
