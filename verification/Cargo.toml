[package]
name = "doodles"
version = "0.1.0"
edition = "2021"
publish = false

[dependencies]
rand = "0.9"
bitvec = "1"
crossterm = "*"
clap = { version = "4", features = ["derive"] }
