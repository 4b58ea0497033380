[package]
name = "mun_core"
version = "0.1.0"
edition = "2021"
publish = false

[dependencies]
uuid = "1"
libloading = "0.8"
