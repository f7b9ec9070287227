[package]
name = "tu"
version = "0.1.0"
edition = "2021"
publish = false

[dependencies]
chrono = "0.4"
uuid = { version = "*", features = ["v4"] }
toml = "*"
serde = { version = "1", features = ["derive"] }
serde_derive = "1"
dirs = "*"
clap = "*"
log = "0.4"
env_logger = "*"
