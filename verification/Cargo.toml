[package]
name = "versualizer_core"
version = "0.1.0"
edition = "2021"
publish = false

[dependencies]
hmac = "0.12"
sha1 = "0.10"
urlencoding = "2"
dirs = "*"
tokio = { version = "1", features = ["sync", "rt-multi-thread", "macros", "time"] }
tokio-util = "0.7"
reqwest = { version = "0.12", default-features = false, features = ["json", "rustls-tls"] }
serde = { version = "1", features = ["derive"] }
serde_json = "1"
toml = "*"
rusqlite = { version = "*", features = ["bundled"] }
async-trait = "0.1"
