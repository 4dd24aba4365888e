[package]
name = "cpxor"
version = "0.1.0"
edition = "2021"
publish = false

[dependencies]
seahash = "*"
io-uring = "*"
nix = { version = "*", features = ["fs"] }
walkdir = "*"
