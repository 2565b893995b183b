[package]
name = "xcvrd"
version = "0.1.0"
edition = "2021"
publish = false

[dependencies]
libc = "0.2"
pyo3 = "0.23"
serde_json = { version = "1", features = ["preserve_order"] }
thiserror = "1"
