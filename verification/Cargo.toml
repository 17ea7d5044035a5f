[package]
name = "frechet"
version = "0.1.0"
edition = "2021"
publish = false

[dependencies]
ndarray = "0.16"
ndarray-linalg = "0.17"
thiserror = "1"
burn = { version = "0.16", default-features = false, features = ["std"] }
