[package]
name = "simd_codecs"
version = "0.1.0"
edition = "2021"
publish = false

[dev-dependencies]
base64 = "0.13"
rand = "0.8"
