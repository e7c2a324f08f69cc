[package]
name = "hifitime"
version = "0.1.0"
edition = "2021"
publish = false

[dependencies]
pyo3 = "*"
pyo3-stub-gen = { version = "*", default-features = false }
