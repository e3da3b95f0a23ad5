[package]
name = "cryolock"
version = "0.1.0"
edition = "2021"
publish = false

[dependencies]
chrono = "0.4"
directories = "6"
env_logger = "0.11"
fontdue = "0.9"
libc = "0.2"
log = "0.4"
pam = "0.8"
serde = { version = "1", features = ["derive"] }
smithay-client-toolkit = "0.20"
tiny-skia = "0.11"
toml = "0.8"
wayland-client = "0.31"
wayland-protocols-wlr = { version = "0.3", features = ["client"] }
zeroize = "1"
