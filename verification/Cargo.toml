[package]
name = "floral_notepaper"
version = "0.1.0"
edition = "2021"
publish = false

[dependencies]
uuid = { version = "1", features = ["v4"] }
chrono = { version = "0.4", features = ["serde"] }
blake3 = { version = "1", features = ["pure"] }
serde = { version = "1", features = ["derive"] }
serde_json = "1"
rusqlite = { version = "*", features = ["bundled"] }
zip = { version = "2", default-features = false, features = ["deflate"] }
trash = "*"
fs4 = { version = "*", features = ["sync"] }
dirs = "*"
