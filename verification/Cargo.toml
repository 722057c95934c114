[package]
name = "scalpel"
version = "0.1.0"
edition = "2021"
publish = false

[dependencies]
ring = "*"
rand = "*"

[dev-dependencies]
