[package]
name = "leanness"
version = "0.1.0"
edition = "2021"
publish = false

[dependencies]
cargo-lock = "*"
rusqlite = "*"
semver = "1"
serde = { version = "1", features = ["derive"] }
serde_json = "1"
