[package]
name = "claudeth"
version = "0.1.0"
edition = "2021"
publish = false

[dependencies]
k256 = { version = "0.13", default-features = false, features = ["ecdsa", "std"] }
