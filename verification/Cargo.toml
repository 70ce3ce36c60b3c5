[package]
name = "pathetic"
version = "0.1.0"
edition = "2021"
publish = false

[dependencies]
image = { version = "0.24", default-features = false, features = ["png", "jpeg"] }
rand = "0.8"
rand_xoshiro = "0.6"
rayon = "1"
