[package]
name = "marimow"
version = "0.1.0"
edition = "2021"
publish = false

[dependencies]
clap = { version = "4", features = ["derive"] }
ctrlc = "3"
dirs = "*"
env_logger = "*"
log = "*"
nix = { version = "*", features = ["process", "signal"] }
notify = "*"
serde = { version = "1", features = ["derive"] }
toml = "*"
