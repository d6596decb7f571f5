[package]
name = "oryxis_terminal"
version = "0.1.0"
edition = "2021"
publish = false

[dependencies]
alacritty_terminal = "*"
arboard = "*"
portable-pty = "*"
tokio = { version = "1", features = ["sync"] }
tracing = "*"
unicode-width = "*"
