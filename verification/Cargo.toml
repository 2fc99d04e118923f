[package]
name = "tiny_wat_interpreter"
version = "0.1.0"
edition = "2021"
publish = false

[dependencies]
sexp = "1"
