[package]
name = "kivio_chat"
version = "0.1.0"
edition = "2021"
publish = false

[dependencies]
serde = { version = "=1.0.229", features = ["derive"] }
serde_json = { version = "=1.0.154", features = ["float_roundtrip"] }
base64 = "0.22"
sha2 = "=0.10.9"
html-escape = "=0.2.15"
chrono = "=0.4.45"
uuid = { version = "=1.29.0", features = ["v4"] }
zip = { version = "=2.6.1", default-features = false, features = ["deflate"] }
calamine = "=0.28.0"
pdf-extract = "=0.7.12"
tokio = { version = "=1.54.1", features = ["time", "sync", "rt", "macros"] }
futures = "=0.3.34"
reqwest = { version = "=0.12.28", default-features = false, features = ["rustls-tls", "json", "multipart", "stream"] }
rusqlite = { version = "=0.32.1", features = ["bundled"] }
sqlite-vec = "=0.1.9"
arboard = { version = "=3.7.0", default-features = false }
