[package]
name = "keyd"
version = "0.1.0"
edition = "2021"
publish = false

[dependencies]
clap = { version = "4", features = ["derive"] }
evdev = "*"
libc = "0.2"
serde = { version = "1", features = ["derive"] }
serde_json = "1"
env_logger = "*"
log = "0.4"
