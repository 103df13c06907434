[package]
name = "rustatex"
version = "0.1.0"
edition = "2021"
publish = false

[dependencies]
clap = { version = "4", features = ["derive"] }
env_logger = "0.11"
lazy_static = "1"
log = "0.4"
printpdf = "0.7"
regex = "1"
