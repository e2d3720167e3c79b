[package]
name = "hexrogue"
version = "0.1.0"
edition = "2021"
publish = false

[dependencies]
hex2d = "1"
bracket-lib = "0.8"
anyhow = "1"
log = "0.4"
pretty_env_logger = "0.5"
