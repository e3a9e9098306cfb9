[package]
name = "cleanshare"
version = "0.1.0"
edition = "2021"
publish = false

[dependencies]
url = "*"
percent-encoding = "*"
globset = "*"
anyhow = "*"
atty = "*"
clap = { version = "*", features = ["derive"] }
serde = { version = "*", features = ["derive"] }
serde_json = "*"
serde_yaml = "*"
