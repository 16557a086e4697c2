[package]
name = "chat_replay"
version = "0.1.0"
edition = "2021"
publish = false

[dependencies]
rand = "0.8"
serde = { version = "1", features = ["derive"] }
serde_json = "1"
time = { version = "0.3", features = ["serde"] }
tokio = { version = "1", features = ["macros", "rt-multi-thread"] }
tokio-stream = "0.1"
reqwest = { version = "0.11", default-features = false, features = ["json"] }
log = "0.4"
env_logger = "0.10"
rocket = { version = "0.5", features = ["json"] }
