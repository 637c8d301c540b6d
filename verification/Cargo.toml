[package]
name = "rust_3d"
version = "0.1.0"
edition = "2021"
publish = false

[dependencies]
itertools = "0.10"
gl = "0.14"
glutin = "0.19"
image = "0.23"
tobj = "0.1"
