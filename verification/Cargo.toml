[package]
name = "dpoll"
version = "0.1.0"
edition = "2021"
publish = false

[dependencies]
libc = "*"
log = "*"
env_logger = "*"
