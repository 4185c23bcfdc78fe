[package]
name = "fsmonitor"
version = "0.1.0"
edition = "2021"
publish = false

[dependencies]
notify = "*"

[dev-dependencies]
serde_json = "*"
