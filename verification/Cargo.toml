[package]
name = "skeg_cli"
version = "0.1.0"
edition = "2021"
publish = false

[dependencies]
bytes = "1"
skeg-resp3 = "*"
skeg-vector = "*"

[dev-dependencies]
tempfile = "3"
