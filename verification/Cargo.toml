[package]
name = "skill_flow"
version = "0.1.0"
edition = "2021"
publish = false

[dependencies]
bevy = { version = "=0.18.1", default-features = false }
indexmap = { version = "=2.14.2", features = ["serde"] }
ron = "=0.12.3"
serde = { version = "=1.0.229", features = ["derive"] }
