[package]
name = "cvec"
version = "0.1.0"
edition = "2021"
publish = false

[dependencies]
self-rust-tokenize = "*"
quote = "*"
proc-macro2 = "*"
