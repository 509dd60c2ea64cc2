[package]
name = "photo"
version = "0.1.0"
edition = "2021"
publish = false

[dependencies]
indexmap = "2"
ndarray = "0.16"
num-traits = "0.2"
