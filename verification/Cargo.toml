[package]
name = "metal_prims"
version = "0.1.0"
edition = "2021"
publish = false

[dependencies]
itertools = "0.12"
metal = { version = "0.27", default-features = false }
petgraph = "0.6"
