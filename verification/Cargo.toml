[package]
name = "card_store"
version = "0.1.0"
edition = "2021"
publish = false

[dependencies]
base64 = "0.22"
rusqlite = { version = "*", features = ["bundled"] }
serde = { version = "1", features = ["derive"] }
serde_json = "1"
