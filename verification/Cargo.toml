[package]
name = "wireline"
version = "1.0.0"
edition = "2021"
publish = false

[dependencies]
portable-pty = "0.8"
serde = { version = "1", features = ["derive"] }
