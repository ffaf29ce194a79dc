[package]
name = "dns_name"
version = "0.1.0"
edition = "2021"
publish = false

[dependencies]
idna = "0.5"
smallvec = "1"
