[package]
name = "hamm0r"
version = "0.1.0"
edition = "2021"
publish = false

[dependencies]
minijinja = "2"
serde_json = "1"
serde = { version = "1", features = ["derive"] }
sha2 = "0.10"
regex = "1"
serde_json_path = "0.7"
