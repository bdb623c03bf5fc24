[package]
name = "filestream"
version = "0.1.0"
edition = "2021"
publish = false

[dependencies]
uuid = { version = "*", features = ["v4"] }
axum = { version = "*", features = ["multipart"] }
tokio = { version = "*", features = ["rt-multi-thread", "macros", "fs", "io-util", "net"] }
serde = { version = "*", features = ["derive"] }
