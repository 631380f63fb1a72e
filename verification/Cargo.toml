[package]
name = "herdr_quotr"
version = "0.1.0"
edition = "2021"
publish = false

[dependencies]
anyhow = "=1.0.104"
serde = { version = "=1.0.229", features = ["derive"] }
serde_json = "=1.0.154"
toml = "=0.8.23"
unicode-width = "=0.2.0"
ratatui = "=0.29.0"
syntect = { version = "=5.3.0", default-features = false, features = ["default-fancy"] }
two-face = { version = "=0.5.1", default-features = false, features = ["syntect-default-fancy"] }
