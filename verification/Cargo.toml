[package]
name = "servofetch"
version = "0.1.0"
edition = "2021"
publish = false

[dependencies]
pyo3 = "0.28.3"
pyo3-async-runtimes = { version = "0.28.0", features = ["tokio-runtime"] }
tokio = { version = "1.54.1", features = ["rt", "rt-multi-thread"] }
