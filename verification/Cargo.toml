[package]
name = "galois_field"
version = "0.1.0"
edition = "2021"
publish = false

[dependencies]
proc-macro2 = "*"
quote = "*"
syn = "*"
