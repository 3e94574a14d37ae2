[package]
name = "idn_url"
version = "0.1.0"
edition = "2021"
publish = false

[dependencies]
idna = "1.0"
