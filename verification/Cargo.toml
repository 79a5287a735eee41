[package]
name = "udpstream"
version = "0.1.0"
edition = "2021"
publish = false

[dependencies]
anyhow = "*"
bmp = "*"
clap = { version = "*", features = ["derive"] }
csv = "*"
env_logger = "*"
log = "*"
regex = "*"
