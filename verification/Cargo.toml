[package]
name = "lattice_commit"
version = "0.1.0"
edition = "2021"
publish = false

[dependencies]
rand = "0.9"
anyhow = "1"
log = "0.4"
