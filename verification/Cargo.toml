[package]
name = "pwned_rs"
version = "0.1.0"
edition = "2021"
publish = false

[dependencies]
rust-crypto = "*"
log = "*"
