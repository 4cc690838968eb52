[package]
name = "lhi"
version = "0.1.0"
edition = "2021"
publish = false

[dependencies]
kern = "*"
rustls = "0.17"
