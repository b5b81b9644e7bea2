[package]
name = "heap_tester"
version = "0.1.0"
edition = "2021"
publish = false

[dependencies]
rand = "0.8"
lc3-rs = "*"
rayon = "*"
conv = "*"
floating-duration = "*"
