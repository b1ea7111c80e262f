[package]
name = "blitz"
version = "0.1.0"
edition = "2021"
publish = false

[dependencies]
png = "0.17"
cgmath = "0.18"
fontdue = "0.9"
anyhow = "1"
log = "0.4"
pretty_env_logger = "0.5"
winit = "0.29"
vulkanalia = { version = "0.26", features = ["libloading", "window"] }
