[package]
name = "once"
version = "0.1.0"
edition = "2021"
publish = false

[dependencies]
unicode-width = "*"
shellexpand = "*"
dirs = "*"
toml = "*"
serde = { version = "*", features = ["derive"] }
anyhow = "*"
structopt = "*"
env_logger = "*"
