[package]
name = "knowledge_scanner"
version = "0.1.0"
edition = "2021"
publish = false

[dependencies]
ignore = "0.4"
sha2 = "0.10"
async-std = "1"
commander-rust = "1"
dirs = "*"
env_logger = "*"
