[package]
name = "starry_modules"
version = "0.1.0"
edition = "2021"
publish = false

[dependencies]
log = "0.4"
smoltcp = { version = "0.12", default-features = false, features = ["alloc", "proto-ipv4", "proto-ipv6"] }
