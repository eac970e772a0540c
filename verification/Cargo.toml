[package]
name = "ncd"
version = "0.1.0"
edition = "2021"
publish = false

[dependencies]
murmur3 = "0.5"
curl = "*"

[dev-dependencies]
rand = "0.8"
