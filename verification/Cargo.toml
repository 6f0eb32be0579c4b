[package]
name = "wowsunpacker"
version = "0.1.0"
edition = "2021"
publish = false

[dependencies]
bincode = "1.3"
flate2 = "1"
regex = "1"
log = "0.4"
env_logger = "0.11"
rayon = "1"
serde_json = "1"
libloading = "0.8"
winreg = "0.52"
