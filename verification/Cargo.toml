[package]
name = "dns_server"
version = "0.1.0"
edition = "2021"
publish = false

[dependencies]
anyhow = "1"
crossbeam = "0.8"
dashmap = "5"
env_logger = "0.10"
rand = "0.8"
rustc-hash = "1"
