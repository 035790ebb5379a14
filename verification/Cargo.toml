[package]
name = "petit"
version = "0.1.0"
edition = "2021"
publish = false

[dependencies]
serde = { version = "=1.0.229", features = ["derive"] }
serde_json = "=1.0.154"
serde_yaml = "=0.9.34"
thiserror = "=2.0.21"
toml = "=1.1.8"
dirs = "=7.0.0"
ratatui = "=0.30.2"
chrono-tz = "=0.10.4"
