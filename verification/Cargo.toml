[package]
name = "watchdog"
version = "0.1.0"
edition = "2021"
publish = false

[dependencies]
bollard = "*"
clap = { version = "*", features = ["derive"] }
env_logger = "*"
futures-util = "*"
log = "*"
tokio = { version = "*", features = ["rt-multi-thread", "macros", "time", "sync"] }
