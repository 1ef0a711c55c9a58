[package]
name = "skycore"
version = "0.1.0"
edition = "2021"
publish = false

[dependencies]
parking_lot = "*"
tokio = { version = "1", features = ["full"] }
bytes = "1"
