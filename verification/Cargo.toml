[package]
name = "git_biasect"
version = "0.1.0"
edition = "2021"
publish = false

[dependencies]
argh = "0.1"
rand = "0.8"
