[package]
name = "hpccg"
version = "0.1.0"
edition = "2021"
publish = false

[dependencies]
mpi = "*"
rayon = "1"
libc = "0.2"
