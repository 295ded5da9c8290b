[package]
name = "schedule_core"
version = "0.1.0"
edition = "2021"
publish = false

[dependencies]
uuid = { version = "1", features = ["v4", "v5", "v7", "serde"] }
serde = { version = "1", features = ["derive"] }
serde_json = "1"
thiserror = "2"
anyhow = "1"
automerge = "*"
chrono = "0.4"
indexmap = "2"
inventory = "0.3"
