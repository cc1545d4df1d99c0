[package]
name = "log_prettifier"
version = "0.1.0"
edition = "2021"
publish = false

[dependencies]
clap = { version = "4", features = ["derive"] }
colorize = "*"
itertools = "*"
serde_json = { version = "1", features = ["preserve_order"] }
termion = "*"
