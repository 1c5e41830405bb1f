[package]
name = "pog"
version = "0.1.0"
edition = "2021"
publish = false

[dependencies]
async-channel = "*"
clap = { version = "*", features = ["derive"] }
memmap2 = "*"
regex = "*"
