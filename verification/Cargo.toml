[package]
name = "rust_py_scheduler"
version = "0.1.0"
edition = "2021"
publish = false

[dependencies]
chrono = "0.4"
uuid = { version = "1", features = ["v4"] }
thiserror = "2"
pyo3 = { version = "0.26", features = ["abi3-py310"] }
