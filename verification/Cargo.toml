[package]
name = "helix"
version = "0.1.0"
edition = "2021"
publish = false

[dependencies]
rand = "*"
uuid = { version = "*", features = ["v4"] }
clap = "*"
crossbeam-channel = "*"
csv = "*"
glob = "*"
log = "*"
env_logger = "*"
