[package]
name = "simd"
version = "0.1.0"
edition = "2021"
publish = false

[dependencies]
cblas = "*"
nalgebra = { version = "*", default-features = false, features = ["std"] }
