[package]
name = "spc_charts"
version = "0.1.0"
edition = "2021"
publish = false

[dependencies]
rust_decimal = "*"
num-traits = "*"
