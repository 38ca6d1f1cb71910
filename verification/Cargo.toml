[package]
name = "vuvuzela"
version = "0.1.0"
edition = "2021"
publish = false

[dependencies]
ring = "*"
rand = "*"
x25519-dalek = { version = "*", features = ["static_secrets"] }
