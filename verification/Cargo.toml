[package]
name = "vibewatch"
version = "0.1.0"
edition = "2021"
publish = false

[dependencies]
anyhow = "*"
clap = { version = "*", features = ["derive"] }
env_logger = "*"
glob = "*"
log = "*"
notify = "*"
shell-words = "*"
tokio = { version = "*", features = ["rt-multi-thread", "macros", "process", "signal", "time", "sync"] }
