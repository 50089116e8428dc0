[package]
name = "zero2prod"
version = "0.1.0"
edition = "2021"
publish = false

[dependencies]
garde = { version = "*", default-features = false, features = ["email"] }
rand = "0.8"
base64 = "0.22"
