[package]
name = "before"
version = "0.1.0"
edition = "2021"
publish = false

[dependencies]
chrono = { version = "=0.4.45", features = ["serde"] }
lru = "=0.18.5"
zip = "=8.6.0"
rand = "=0.10.3"
serde = { version = "=1.0.229", features = ["derive"] }
serde_json = "=1.0.151"
reqwest = { version = "=0.13.5", default-features = false, features = ["json"] }
tokio = { version = "=1.53.2", features = ["rt", "macros", "fs", "sync", "io-util"] }
