[package]
name = "tiny_jpeg"
version = "0.1.0"
edition = "2021"
publish = false

[dev-dependencies]
jpeg-decoder = { version = "*", default-features = false }
