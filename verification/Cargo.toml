[package]
name = "u4pak"
version = "0.1.0"
edition = "2021"
publish = false

[dependencies]
clap = "2.33"
flate2 = "1.0"
rust-crypto = "0.2.36"
