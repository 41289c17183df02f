[package]
name = "muskox"
version = "0.1.0"
edition = "2021"
publish = false

[dependencies]
exr = "*"
glam = "*"
glob = "*"
half = "*"
image = "*"
smallvec = "*"
