[package]
name = "ruscikit"
version = "0.1.0"
edition = "2021"
publish = false

[dependencies]
ndarray = "0.15"
ndarray-linalg = "0.16"
rand = "0.8"
rand_chacha = "0.3"
