[package]
name = "cica"
version = "0.1.0"
edition = "2021"
publish = false

[dependencies]
anyhow = "*"
fastembed = "*"
rusqlite = { version = "*", features = ["bundled"] }
serde = { version = "*", features = ["derive"] }
serde_json = "*"
