[package]
name = "icie"
version = "0.1.0"
edition = "2021"
publish = false

[dependencies]
backtrace = "0.3"
shellexpand = "*"
futures = "0.3"
json = "*"
lazy_static = "1"
log = "0.4"
arc-swap = "*"
tempfile = "3"
