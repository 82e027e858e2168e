[package]
name = "yall"
version = "0.1.0"
edition = "2021"
publish = false

[dependencies]
miette = "*"
