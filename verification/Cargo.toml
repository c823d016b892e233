[package]
name = "tsne"
version = "0.1.0"
edition = "2021"
publish = false

[dependencies]
ndarray = "0.16"
ndarray-rand = "0.15"
numpy = "0.22"
pyo3 = { version = "0.22", features = ["extension-module"] }
