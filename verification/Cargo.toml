[package]
name = "survey_pipeline"
version = "0.1.0"
edition = "2021"
publish = false

[dependencies]
rand = { version = "0.9", features = ["small_rng"] }
rayon = "1"
pyo3 = { version = "0.25", features = ["abi3-py39"] }
