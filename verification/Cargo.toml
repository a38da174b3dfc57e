[package]
name = "sbus"
version = "0.1.0"
edition = "2021"
publish = false

[dependencies]
clap = { version = "4", features = ["derive"] }
env_logger = "0.11"
libc = "0.2"
log = "0.4"
serialport = { version = "4.9", default-features = false }
thiserror = "2"
