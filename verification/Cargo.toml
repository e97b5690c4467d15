[package]
name = "rs_fast_one_hot"
version = "0.1.0"
edition = "2021"
publish = false

[dependencies]
rayon = "*"
sprs = "*"
pyo3 = "*"
