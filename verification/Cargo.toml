[package]
name = "openresearch_cli"
version = "0.1.97"
edition = "2021"
publish = false

[dependencies]
semver = "1"
sha2 = "0.10"
serde = { version = "1", features = ["derive"] }
serde_json = "1"
fd-lock = "4"
dirs = "*"
urlencoding = "2"
base64 = "0.22"
uuid = { version = "1", features = ["v4"] }
anyhow = "1"
