[package]
name = "int_pairing"
version = "0.1.0"
edition = "2021"
publish = false

[dependencies]
num-integer = "0.1"
polars = { version = "0.37", default-features = false, features = ["dtype-struct"] }
pyo3-polars = { version = "0.11", features = ["derive"] }
serde = { version = "1", features = ["derive"] }
