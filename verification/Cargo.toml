[package]
name = "ubackup"
version = "0.1.0"
edition = "2021"
publish = false

[dependencies]
clap = "*"
config = "*"
serde = { version = "*", features = ["derive"] }
serde_yaml = "*"
hostname = "*"
systemstat = "*"
