[package]
name = "usbipd_wsl"
version = "0.1.0"
edition = "2021"
publish = false

[dependencies]
once_cell = "*"
tokio = { version = "*", features = ["sync", "rt"] }
tracing = "*"
tracing-subscriber = "*"
winreg = "*"
windows-elevate = "*"
