[package]
name = "smaf"
version = "0.1.0"
edition = "2021"
publish = false

[dependencies]
midir = "0.9"
rodio = { version = "0.17", default-features = false }
tokio = { version = "1", features = ["rt", "time", "macros"] }
