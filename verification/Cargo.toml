[package]
name = "wadtools"
version = "0.1.0"
edition = "2021"
publish = false

[dependencies]
fancy-regex = "*"
league-toolkit = "*"
serde = { version = "*", features = ["derive"] }
serde_json = "*"
csv = "*"
toml = "*"
walkdir = "*"
clap = { version = "*", features = ["derive"] }
dirs-next = "*"
directories-next = "*"
