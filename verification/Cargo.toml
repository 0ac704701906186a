[package]
name = "cic2nf"
version = "0.1.0"
edition = "2021"
publish = false

[dependencies]
chrono = { version = "0.4", default-features = false, features = ["std"] }
csv = "1"
itertools = "0.14"
clap = { version = "4", features = ["cargo"] }
env_logger = "0.11"
log = "0.4"
