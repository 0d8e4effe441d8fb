[package]
name = "hq"
version = "0.1.0"
edition = "2021"
publish = false

[dependencies]
chrono = "0.4"
clap = { version = "4", features = ["derive"] }
dirs = "5"
env_logger = "0.11"
log = "0.4"
requestty = "0.5"
reqwest = { version = "0.12", default-features = false, features = ["blocking", "cookies", "json"] }
serde = { version = "1", features = ["derive"] }
toml = "0.8"
