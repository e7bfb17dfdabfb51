[package]
name = "quiz_service"
version = "0.1.0"
edition = "2021"
publish = false

[dependencies]
rusqlite = { version = "*", features = ["bundled"] }
interprocess = "*"

[dev-dependencies]
serde_json = "*"
