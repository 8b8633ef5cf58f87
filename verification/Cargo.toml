[package]
name = "miniqtt"
version = "0.1.0"
edition = "2021"
publish = false

[dependencies]
embedded-io-async = "*"
pin-project-lite = "*"
