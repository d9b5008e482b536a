[package]
name = "calendar_notifier"
version = "0.1.0"
edition = "2021"
publish = false

[dependencies]
base64 = "0.22"
sha2 = "0.10"
getrandom = "0.2"
url = "2"
urlencoding = "2"
chrono = "0.4"
serde = { version = "1", features = ["derive"] }
serde_json = "1"
anyhow = "1"
tokio = { version = "1", features = ["net", "io-util", "time", "rt", "macros", "sync"] }
reqwest = { version = "0.12", default-features = false, features = ["json", "rustls-tls"] }
rusqlite = { version = "0.32", features = ["bundled"] }
keyring = "3"
dirs = "5"
open = "5"
