[package]
name = "pocket_cube"
version = "0.1.0"
edition = "2021"
publish = false

[dependencies]
rand = "0.8"
itertools = "0.12"
clap = { version = "4", features = ["derive"] }
