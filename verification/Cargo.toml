[package]
name = "sentinel"
version = "0.1.0"
edition = "2021"
publish = false

[dependencies]
humantime = "=2.4.0"
crossbeam = "=0.8.5"
crossbeam-channel = "=0.5.17"
pipe = "=0.4.0"
dirs = "=7.0.0"
serde = "=1.0.229"
serde_derive = "=1.0.229"
toml = "=1.1.7"
slack_api = { version = "=0.23.1", features = ["sync", "reqwest_blocking"] }
