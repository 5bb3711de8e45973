[package]
name = "workdays"
version = "0.1.0"
edition = "2021"
publish = false

[dependencies]
chrono = "0.4"
num-traits = "0.2"
thiserror = "1"
csv = "1"
lazy_static = "1"
pyo3 = "0.17"
numpy = "0.17"
ndarray = "0.15"
