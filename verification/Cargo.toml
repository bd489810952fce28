[package]
name = "slasshyvault"
version = "0.1.0"
edition = "2021"
publish = false

[dependencies]
percent-encoding = "2"
url = "2"
chrono = "0.4"
serde = { version = "1", features = ["derive"] }
serde_json = "1"
uuid = { version = "1", features = ["v4"] }
dirs = "5"
reqwest = { version = "0.12", default-features = false, features = ["blocking", "json", "rustls-tls"] }
