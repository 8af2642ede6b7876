[package]
name = "rise_above"
version = "0.1.0"
edition = "2021"
publish = false

[dependencies]
rand = "0.8"
kdtree = "0.6"
bevy = "0.6"
serde = { version = "1", features = ["derive"] }
serde_json = "1"
