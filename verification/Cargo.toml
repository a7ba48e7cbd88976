[package]
name = "reactor_rt"
version = "0.1.0"
edition = "2021"
publish = false

[dependencies]
petgraph = { version = "0.6", default-features = false }
crossbeam = "0.8"
log = "0.4"
