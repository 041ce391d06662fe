[package]
name = "sonik_core"
version = "0.1.0"
edition = "2021"
publish = false

[dependencies]
rand = "*"
simsearch = "*"
crossbeam-channel = "*"
ignore = "*"
rodio = "*"
