[package]
name = "local_llm"
version = "0.1.0"
edition = "2021"
publish = false

[dependencies]
sha2 = "0.10"
serde_json = "1"
serde = { version = "1", features = ["derive"] }
minijinja = "2"
chrono = "0.4"
