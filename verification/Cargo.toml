[package]
name = "datetimescan"
version = "0.1.0"
edition = "2021"
publish = false

[dependencies]
chrono = { version = "0.4", default-features = false, features = ["std", "clock"] }
clap = "2"
env_logger = "0.10"
log = "0.4"

[dev-dependencies]
regex = "1"
