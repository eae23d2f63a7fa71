[package]
name = "toyoterm"
version = "0.1.0"
edition = "2021"
publish = false

[dependencies]
base64 = "0.22"
flate2 = "1"
portable-pty = "*"
image = { version = "0.25", default-features = false, features = ["png", "jpeg"] }
