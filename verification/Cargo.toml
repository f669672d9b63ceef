[package]
name = "chat_engine"
version = "0.1.0"
edition = "2021"
publish = false

[dependencies]
serde = { version = "*", features = ["derive"] }
serde_json = "*"
chrono = "*"
base64 = "*"
lopdf = "*"
reqwest = { version = "*", default-features = false, features = ["blocking", "json"] }
