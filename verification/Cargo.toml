[package]
name = "aerodl"
version = "0.1.0"
edition = "2021"
publish = false

[dependencies]
serde = { version = "1", features = ["derive"] }
serde_json = "1"
rusqlite = { version = "*", features = ["bundled"] }
tokio = { version = "1", features = ["process", "io-util", "rt-multi-thread", "sync", "fs", "macros"] }
reqwest = { version = "0.12", default-features = false, features = ["stream", "rustls-tls"] }
zip = { version = "*", default-features = false, features = ["deflate"] }
futures-util = "0.3"
