[package]
name = "magneto"
version = "0.1.0"
edition = "2021"
publish = false

[dependencies]
nalgebra = "=0.35.0"
nalgebra-lapack = { version = "=0.28.0", default-features = false, features = ["lapack-custom"] }

[dev-dependencies]
rand = "=0.8.8"
