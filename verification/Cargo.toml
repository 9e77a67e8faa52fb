[package]
name = "rust_jsx"
version = "0.1.0"
edition = "2021"
publish = false

[dependencies]
proc-macro2 = "*"
