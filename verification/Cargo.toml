[package]
name = "thoughtcast"
version = "0.1.0"
edition = "2021"
publish = false

[dependencies]
chrono = "*"
serde = { version = "1", features = ["derive"] }
serde_json = "1"
hound = "*"
dirs = "*"
arboard = "*"
cpal = "*"
