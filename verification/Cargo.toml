[package]
name = "coast_daemon"
version = "0.1.0"
edition = "2021"
publish = false

[dependencies]
serde_json = "1"
serde_yaml = "0.9"
sha2 = "0.10"
dirs = "5"
