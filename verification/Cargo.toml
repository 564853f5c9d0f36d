[package]
name = "faxbot"
version = "0.1.0"
edition = "2021"
publish = false

[dependencies]
rand = "0.8"
rust-sc2 = "*"
ndarray = "*"
float-ord = "*"
