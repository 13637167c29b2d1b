[package]
name = "pytextgrid"
version = "0.1.0"
edition = "2021"
publish = false

[dependencies]
textgrid = "*"
pyo3 = "*"
numpy = "*"
