[package]
name = "marsdown"
version = "0.1.0"
edition = "2021"
publish = false

[dependencies]
lines_from_file = "*"
