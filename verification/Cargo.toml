[package]
name = "tlv"
version = "0.1.0"
edition = "2021"
publish = false

[dependencies]
compio = { version = "=0.19.2", features = ["fs", "io", "macros"] }
tokio = { version = "=1.53.2", features = ["rt-multi-thread"] }
