[package]
name = "qstr"
version = "0.1.0"
edition = "2021"
publish = false

[dependencies]
serde = "*"
