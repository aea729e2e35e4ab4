[package]
name = "plugin_doro"
version = "0.1.0"
edition = "2021"
publish = false

[dependencies]
luo9_sdk = "*"
serde = { version = "1", features = ["derive"] }
serde_json = "1"
ureq = "*"
