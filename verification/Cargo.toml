[package]
name = "tinyrf"
version = "0.1.0"
edition = "2021"
publish = false

[dependencies]
zstd = "*"
uuid = { version = "*", features = ["v4"] }
log = "*"
env_logger = "*"
structopt = "*"
failure = "*"
crossbeam-channel = "*"
hostname = "*"
