[package]
name = "relay_storage_roots"
version = "0.1.0"
edition = "2021"
publish = false

[dev-dependencies]
parity-scale-codec = "*"
