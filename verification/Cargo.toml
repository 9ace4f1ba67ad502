[package]
name = "generation"
version = "0.1.0"
edition = "2021"
publish = false

[dependencies]
rand = "0.9"
image = { version = "0.25", default-features = false, features = ["png", "bmp"] }
rayon = "1"
