[package]
name = "process_monitor"
version = "0.1.0"
edition = "2021"
publish = false

[dependencies]
clap = "=4.6.7"
log = "=0.4.34"
env_logger = "=0.11.11"
sysinfo = "=0.39.6"
slack-hook = { version = "=0.9.1", features = ["blocking"] }
