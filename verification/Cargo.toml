[package]
name = "sightline"
version = "0.1.0"
edition = "2021"
publish = false

[dependencies]
bevy = { version = "0.5", default-features = false, features = ["render"] }
rand = "0.8"
ron = "0.6"
serde = { version = "1", features = ["derive"] }
