[package]
name = "fn_time"
version = "0.1.0"
edition = "2021"
publish = false

[dependencies]
cpython = "*"
serde = { version = "1", features = ["derive"] }
serde_json = "1"
