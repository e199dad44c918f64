[package]
name = "source_drift"
version = "0.1.0"
edition = "2021"
publish = false

[dependencies]
chrono = "0.4"
env_logger = "0.11"
flate2 = "1"
git2 = "0.19"
log = "0.4"
md5 = "0.7"
reqwest = { version = "0.12", features = ["blocking"] }
serde = { version = "1", features = ["derive"] }
serde_json = "1"
tar = "0.4"
tempfile = "3"
toml = "0.8"
url = "2"
walkdir = "2"
