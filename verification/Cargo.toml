[package]
name = "solarsim"
version = "0.1.0"
edition = "2021"
publish = false

[dependencies]
encoding_rs = "*"
toml = "*"
rand = "*"
