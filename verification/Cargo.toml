[package]
name = "xgb"
version = "3.4.1"
edition = "2021"
publish = false

[dependencies]
indexmap = "2"
libc = "0.2"
tempfile = "3"
