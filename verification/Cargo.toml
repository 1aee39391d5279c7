[package]
name = "tblis"
version = "0.1.0"
edition = "2021"
publish = false

[dependencies]
opt-einsum-path = "*"
ndarray = "*"
