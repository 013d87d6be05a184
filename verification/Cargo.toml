[package]
name = "cline_core"
version = "0.1.0"
edition = "2021"
publish = false

[dependencies]
diffy = "*"
similar = "*"
tempfile = "*"
