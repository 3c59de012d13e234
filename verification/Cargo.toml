[package]
name = "netfly"
version = "0.1.0"
edition = "2021"
publish = false

[dependencies]
dirs = "5"
parking_lot = "0.12"
rusqlite = { version = "0.31", features = ["bundled"] }
serde = { version = "1", features = ["derive"] }
serde_json = "1"
toml = "0.8"
ureq = "2"
url = "2"
