[package]
name = "kijuku_db"
version = "0.1.0"
edition = "2021"
publish = false

[dependencies]
sha2 = "=0.10.9"
serde = { version = "=1.0.229", features = ["derive"] }
serde_json = "=1.0.154"
toml = "=0.8.23"
chrono = "=0.4.45"
thiserror = "=1.0.69"
rusqlite = { version = "=0.31.0", features = ["bundled", "backup"] }
uuid = { version = "=1.29.0", features = ["v4"] }
clap = { version = "4", features = ["derive"] }
csv = "1"
