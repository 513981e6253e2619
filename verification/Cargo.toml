[package]
name = "starbeam"
version = "0.1.0"
edition = "2021"
publish = false

[dependencies]
bevy = { version = "0.17", default-features = false, features = ["std"] }
rand = "0.8"
serde = { version = "1", features = ["derive"] }
