[package]
name = "trust_chain"
version = "0.1.0"
edition = "2021"
publish = false

[dependencies]
ring = "*"
uuid = { version = "*", features = ["v4"] }
log = "*"
env_logger = "*"
dirs = "*"
structopt = "*"
