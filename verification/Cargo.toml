[package]
name = "rsi"
version = "0.1.0"
edition = "2021"
publish = false

[dependencies]
peios-uapi = "*"
libc = "0.2"
