[package]
name = "desktopd"
version = "0.1.0"
edition = "2021"
publish = false

[dependencies]
futures = "=0.3.34"
async-std = { version = "=1.13.2", features = ["attributes"] }
async-tungstenite = "=0.35.0"
async-i3ipc = { version = "=0.7.0", features = ["sway"] }
serde = { version = "=1.0.229", features = ["derive"] }
serde_json = "=1.0.151"
log = "=0.4.34"
env_logger = "=0.11.11"
notify-rust = "=4.18.2"
tide = "=0.16.0"
