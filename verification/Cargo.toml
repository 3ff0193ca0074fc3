[package]
name = "unstablon-pkm"
version = "0.1.0"
edition = "2021"
publish = false

[dependencies]
notify = "=8.2.1"
rusqlite = { version = "=0.41.0", features = ["bundled"] }
serde = { version = "1", features = ["derive"] }
serde_json = "1"
serde_yaml = "0.9"
thiserror = "2"
tokio = { version = "1", features = ["macros", "rt", "sync", "time"] }
tokio-util = "0.7"
tracing = "0.1"
tracing-subscriber = { version = "0.3", features = ["env-filter"] }
