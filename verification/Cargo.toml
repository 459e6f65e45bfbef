[package]
name = "chat_room"
version = "0.1.0"
edition = "2021"
publish = false

[dev-dependencies]
serde_json = "*"
