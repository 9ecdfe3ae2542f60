[package]
name = "container_desktop_entries"
version = "0.1.0"
edition = "2021"
publish = false

[dependencies]
clap = { version = "*", features = ["derive"] }
env_logger = "*"
log = "*"
walkdir = "*"
zbus = "*"
