[package]
name = "smart_clipboard"
version = "0.1.0"
edition = "2021"
publish = false

[dependencies]
regex = "1"
serde = { version = "1", features = ["derive"] }
serde_json = "1"
sha2 = "0.10"
chrono = "0.4"
base64 = "0.22"
image = { version = "0.25", default-features = false, features = ["png"] }
arboard = "3"
