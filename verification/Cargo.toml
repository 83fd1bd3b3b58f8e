[package]
name = "linkstream_core"
version = "0.1.0"
edition = "2021"
publish = false

[dependencies]
rust-lapper = "*"
num-traits = "*"
serde = { version = "*", features = ["derive"] }
serde_json = "*"
kurbo = "*"
