[package]
name = "ahqstore_appimage"
version = "0.1.0"
edition = "2021"
publish = false

[dependencies]
ahqstore-types = "=3.9.2"
blake3 = "=1.8.7"
content_disposition = "=0.4.0"
rand = "=0.9.5"
reqwest = { version = "=0.12.28", default-features = false, features = ["json", "rustls-tls"] }
serde = { version = "=1.0.229", features = ["derive"] }
serde_json = "=1.0.154"
serde_yaml = "=0.9.34"
tokio = { version = "=1.54.1", features = ["full"] }

[dev-dependencies]
regex = "=1.13.1"
