[package]
name = "liberty_tools"
version = "0.1.0"
edition = "2021"
publish = false

[dependencies]
flate2 = "1"
pyo3 = "0.25"
