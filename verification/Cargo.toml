[package]
name = "jpeg_dct"
version = "0.1.0"
edition = "2021"
publish = false

[dependencies]
transpose = "*"
image = { version = "*", default-features = false, features = ["png", "jpeg"] }
rayon = "*"
rustdct = "*"
