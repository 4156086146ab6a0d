[package]
name = "oxide_kernels"
version = "0.1.0"
edition = "2021"
publish = false

[dependencies]
half = "2"
nalgebra = "*"
cuda-core = "*"
