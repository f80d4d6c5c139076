[package]
name = "sam_rewritten"
version = "0.1.0"
edition = "2021"
publish = false

[dependencies]
interprocess = "*"
libloading = "*"
