[package]
name = "tract-core"
version = "0.1.0"
edition = "2021"
publish = false

[dependencies]
bit-set = "0.5"
ndarray = "0.15"
