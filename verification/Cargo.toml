[package]
name = "termojinal"
version = "0.1.0"
edition = "2021"
publish = false

[dependencies]
base64 = "0.22"
image = { version = "0.25", default-features = false, features = ["png", "jpeg"] }
unicode-width = "0.2"
nix = { version = "0.29", features = ["term", "process", "signal", "fs"] }
libc = "0.2"
signal-hook = "0.3"
serde = { version = "1", features = ["derive"] }
toml = "0.8"
dirs = "5"
log = "0.4"
env_logger = { version = "0.11", default-features = false }
thiserror = "1"
