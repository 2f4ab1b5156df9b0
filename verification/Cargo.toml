[package]
name = "openbim-dt"
version = "0.2.0"
edition = "2021"
publish = false

[dependencies]
getrandom = "0.2"
