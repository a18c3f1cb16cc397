[package]
name = "hyprrun"
version = "0.1.0"
edition = "2021"
publish = false

[dependencies]
regex = "=1.13.1"
miniserde = "=0.1.46"
argh = "=0.1.19"
anyhow = "=1.0.104"
log = { version = "=0.4.35", features = ["std"] }
chrono = "=0.4.45"
