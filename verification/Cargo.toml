[package]
name = "vigil"
version = "0.1.0"
edition = "2021"
publish = false

[dependencies]
anyhow = "1"
clap = { version = "4", features = ["derive", "env"] }
libc = "0.2"
nix = { version = "0.29", features = ["fs", "hostname", "mount", "poll", "process", "resource", "signal", "user"] }
serde = { version = "1", features = ["derive"] }
serde_json = "1"
toml = "0.8"
users = "0.11"
