[package]
name = "bcsk"
version = "0.1.0"
edition = "2021"

[dependencies]
rand = "*"
