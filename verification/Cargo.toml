[package]
name = "streamwm"
version = "0.1.0"
edition = "2021"
publish = false

[dependencies]
bitflags = "=2.13.2"
env_logger = "=0.11.11"
log = "=0.4.35"
nix = { version = "=0.29.0", features = ["event", "poll", "process", "signal"] }
serde = { version = "=1.0.229", features = ["derive"] }
serde_json = "=1.0.154"
toml = "=0.8.23"
wayland-client = "=0.31.15"
wayland-scanner = "=0.31.11"
