[package]
name = "binary_diff"
version = "0.1.0"
edition = "2021"
publish = false

[dependencies]
bcmp = "*"
clap = "2"
env_logger = "*"
log = "0.4"
simplelog = "*"
termion = "1.5"
tui = { version = "*", default-features = false, features = ["termion"] }
