[package]
name = "request_log_analyzer"
version = "0.1.0"
edition = "2021"
publish = false

[dependencies]
chrono = "0.4"
clap = "2"
env_logger = "0.5"
failure = "0.1"
flate2 = "1"
hyper = "0.10"
log = "0.4"
prometheus = { version = "*", default-features = false }
