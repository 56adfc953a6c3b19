[package]
name = "cardio_core"
version = "0.1.0"
edition = "2021"
publish = false

[dependencies]
chrono = "*"
serde_json = "*"
serde = { version = "*", features = ["derive"] }
toml = "*"
clap = { version = "*", features = ["derive"] }
uuid = { version = "*", features = ["v4"] }
fs2 = "*"
tempfile = "*"
dirs = "*"
