[package]
name = "nonstdio"
version = "0.1.0"
edition = "2021"
publish = false

[dependencies]
once_cell = "1"
