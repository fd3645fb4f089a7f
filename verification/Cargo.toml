[package]
name = "ib45_coach"
version = "0.1.0"
edition = "2021"
publish = false

[dependencies]
anyhow = "1"
base64 = "0.22"
chrono = "0.4"
fs2 = "0.4"
hex = "0.4"
keyring = { version = "3", default-features = false }
open = "5"
pdf-extract = "*"
quick-xml = "*"
rand = "0.9"
regex = "1"
reqwest = { version = "0.12", default-features = false, features = ["json", "rustls-tls"] }
rusqlite = { version = "*", features = ["bundled"] }
serde = { version = "1", features = ["derive"] }
serde_json = "1"
sha2 = "0.10"
tokio = { version = "1", features = ["rt-multi-thread", "macros", "time"] }
url = "2"
uuid = { version = "1", features = ["v4"] }
walkdir = "2"
zip = { version = "*", default-features = false, features = ["deflate"] }
