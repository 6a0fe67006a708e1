[package]
name = "coast_daemon"
version = "0.1.0"
edition = "2021"
publish = false

[dependencies]
clap = { version = "=4.6.7", features = ["derive", "env"] }
nix = { version = "=0.29.0", features = ["signal", "process"] }
libc = "=0.2.191"
serde_yaml = "=0.9.34"
serde_json = "1"
dirs = "=5.0.1"
tracing = "=0.1.44"
