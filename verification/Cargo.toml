[package]
name = "worldgen"
version = "0.1.0"
edition = "2021"
publish = false

[dependencies]
mc-core = "*"
mc-vanilla = "*"
crossbeam-channel = "*"
once_cell = "*"
