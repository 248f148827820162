[package]
name = "korppi"
version = "0.1.0"
edition = "2021"
publish = false

[dependencies]
chrono = "*"
dirs = "*"
rusqlite = { version = "*", features = ["bundled"] }
serde = { version = "*", features = ["derive"] }
serde_json = "*"
sha2 = "*"
similar = "*"
toml = "*"
uuid = { version = "*", features = ["v4"] }
zip = "0.6"
