[package]
name = "voxelinator"
version = "0.1.0"
edition = "2021"
publish = false

[dependencies]
image = "*"
indicatif = "*"
struct-builder = "*"
structopt = "*"
