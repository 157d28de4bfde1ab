[package]
name = "goofy_animals"
version = "0.1.0"
edition = "2021"
publish = false

[dependencies]
rand = "0.9"
rand_chacha = "0.9"
tracing = "0.1"
