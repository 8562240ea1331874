[package]
name = "advent_example"
version = "0.1.0"
edition = "2021"
publish = false

[dependencies]
log = "0.4"
pyo3 = "0.20"
tl = "0.7"
