[package]
name = "conductor"
version = "0.1.0"
edition = "2021"
publish = false

[dependencies]
sha2 = "*"
tokio = { version = "*", features = ["sync", "rt", "time", "macros"] }
