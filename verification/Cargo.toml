[package]
name = "bevy_remote_inspector"
version = "0.1.0"
edition = "2021"
publish = false

[dependencies]
bevy = { version = "0.14", default-features = false }
indexmap = "2"
petgraph = "0.6"
serde = { version = "1", features = ["derive"] }
serde_json = "1"
