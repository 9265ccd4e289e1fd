[package]
name = "pugdock"
version = "0.1.0"
edition = "2021"
publish = false

[dependencies]
keyring = { version = "=3.6.3", features = ["apple-native", "windows-native", "linux-native"] }
serde = { version = "=1.0.229", features = ["derive"] }
serde_json = "=1.0.154"
chrono = "=0.4.45"
reqwest = { version = "=0.12.28", default-features = false, features = ["json", "rustls-tls"] }
rusqlite = { version = "=0.32.1", features = ["bundled"] }
tokio = { version = "=1.54.1", features = ["process", "net", "io-util", "time", "sync", "macros", "rt-multi-thread"] }
zip = { version = "=2.6.1", default-features = false, features = ["deflate"] }
thiserror = "=2.0.21"
