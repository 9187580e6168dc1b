[package]
name = "null_escape"
version = "0.1.0"
edition = "2021"
publish = false

[dependencies]
log = "*"
memchr = "*"
simplelog = "*"
