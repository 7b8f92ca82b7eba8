[package]
name = "concurrentgraph"
version = "0.1.0"
edition = "2021"
publish = false

[dependencies]
magnitude = "*"
seize = "0.2"
