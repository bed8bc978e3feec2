[package]
name = "fuzzy_resolution"
version = "0.1.0"
edition = "2021"
publish = false

[dependencies]
dashmap = "5"
pyo3 = { version = "0.19", features = ["extension-module"] }
rayon = "1"
regex = "1"
rustc-hash = "1.1"
