[package]
name = "icecutter"
version = "0.1.0"
edition = "2021"
publish = false

[dependencies]
arboard = { version = "3.7.0", default-features = false }
iced = "0.14.0"
rfd = "0.17.2"
