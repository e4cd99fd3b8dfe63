[package]
name = "peer_sync"
version = "0.1.0"
edition = "2021"
publish = false

[dependencies]
eyre = "*"
reqwest = { version = "*", default-features = false, features = ["blocking"] }
serde = { version = "*", features = ["derive"] }
serde_json = "*"
