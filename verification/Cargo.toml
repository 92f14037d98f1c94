[package]
name = "sh1107"
version = "0.1.0"
edition = "2021"
publish = false

[dependencies]
itertools = "*"
futures = "*"
critical-section = "*"
embedded-hal-async = "*"
