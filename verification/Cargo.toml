[package]
name = "raynaldo"
version = "0.1.0"
edition = "2021"
publish = false

[dependencies]
rand = "*"
glam = "*"
