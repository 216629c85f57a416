[package]
name = "oxidebsd"
version = "0.1.0"
edition = "2021"
publish = false

[dependencies]
chacha20 = "0.9"
sha2 = "0.10"
spin = "0.9"
x86_64 = { version = "0.15", default-features = false, features = ["instructions"] }
