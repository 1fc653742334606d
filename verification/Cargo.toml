[package]
name = "bear"
version = "0.1.0"
edition = "2021"
publish = false

[dependencies]
anyhow = "1.0"
crossbeam-channel = "0.5"
log = "0.4"
path-absolutize = "3.1"
tempfile = "3.10"
