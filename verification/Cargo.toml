[package]
name = "cartel_engine"
version = "0.1.0"
edition = "2021"
publish = false

[dependencies]
bevy = { version = "0.14", default-features = false }
bevy_tweening = { version = "0.11", default-features = false }
