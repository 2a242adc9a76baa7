[package]
name = "pivot_com_types"
version = "0.1.0"
edition = "2021"
publish = false

[dependencies]
bytemuck = { version = "=1.25.2", features = ["derive", "min_const_generics"] }
iceoryx2 = "=0.10.0"
pyo3 = "=0.30.1"
