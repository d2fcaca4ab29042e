[package]
name = "dev_console"
version = "0.1.0"
edition = "2021"
publish = false

[dependencies]
rand = "=0.8.8"
log = "=0.4.34"
env_logger = "=0.11.11"
