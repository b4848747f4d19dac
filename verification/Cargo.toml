[package]
name = "ed448_goldilocks"
version = "0.1.0"
edition = "2021"
publish = false

[dependencies]
subtle = "2"
rand_core = "0.6"
zeroize = "1"
