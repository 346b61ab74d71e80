[package]
name = "darkmagic"
version = "0.1.0"
edition = "2021"
publish = false

[dependencies]
kamadak-exif = "*"
clap = "*"
env_logger = "*"
log = "*"
