[package]
name = "editor_core"
version = "0.1.0"
edition = "2021"
publish = false

[dependencies]
git2 = { version = "0.20", default-features = false }
base64 = "0.22"
serde = { version = "1", features = ["derive"] }
toml = "0.8"
tokio = { version = "1", features = ["sync", "rt", "macros"] }
