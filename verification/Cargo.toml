[package]
name = "tide"
version = "0.1.0"
edition = "2021"
publish = false

[dependencies]
alacritty_terminal = { version = "=0.26.0", default-features = false }
portable-pty = "=0.9.0"
serde_json = "=1.0.154"
syntect = { version = "=5.3.0", default-features = false, features = ["default-fancy"] }
two-face = { version = "=0.5.2", default-features = false, features = ["syntect-fancy"] }
