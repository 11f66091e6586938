[package]
name = "dashcam_rs"
version = "0.1.0"
edition = "2021"
publish = false

[dependencies]
rusqlite = { version = "*", features = ["bundled"] }
chrono = "*"
serde = { version = "*", features = ["derive"] }
toml = "*"
anyhow = "*"
signal-hook = "*"
tracing = "*"
tracing-subscriber = "*"

[dev-dependencies]
tempfile = "*"
