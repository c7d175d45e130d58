[package]
name = "promptlab_core"
version = "0.1.0"
edition = "2021"
publish = false

[dependencies]
jieba-rs = "0.7"
uuid = { version = "=1.29.0", features = ["v4"] }
serde = { version = "1", features = ["derive"] }
serde_json = "=1.0.154"
csv = "=1.4.0"
chrono = { version = "=0.4.45", features = ["serde"] }
thiserror = "=1.0.69"
r2d2 = "=0.8.10"
r2d2_sqlite = "=0.35.0"
rusqlite = "=0.40.2"
reqwest = { version = "=0.12.28", features = ["blocking", "json"] }
arboard = { version = "=3.7.0", default-features = false }
