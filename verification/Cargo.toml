[package]
name = "hotload"
version = "0.1.0"
edition = "2021"
publish = false

[dependencies]
filetime = "0.2"
