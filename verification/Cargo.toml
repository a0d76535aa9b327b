[package]
name = "qqmusic"
version = "0.4.0"
edition = "2021"
publish = false

[dependencies]
base64 = "=0.22.1"
keyring = { version = "=3.6.3", features = ["windows-native"] }
md5 = "=0.7.0"
reqwest = { version = "=0.12.28", default-features = false, features = ["json", "rustls-tls"] }
rusqlite = { version = "=0.32.1", features = ["bundled"] }
serde = { version = "=1.0.229", features = ["derive"] }
serde_json = "=1.0.154"
urlencoding = "=2.1.3"
