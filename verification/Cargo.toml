[package]
name = "rrdp_cache"
version = "0.1.0"
edition = "2021"
publish = false

[dependencies]
ring = "*"
uuid = "*"
rpki = "*"
bytes = "*"
log = "*"
