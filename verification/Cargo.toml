[package]
name = "shaktool"
version = "0.1.0"
edition = "2021"
publish = false

[dependencies]
time = "0.1"
rusqlite = "*"
reqwest = { version = "*", features = ["blocking"] }
serde = { version = "*", features = ["derive"] }
serde_json = "*"
serenity = "*"
tokio = { version = "*", features = ["rt-multi-thread"] }
log = "*"
env_logger = "*"
kankyo = "*"
