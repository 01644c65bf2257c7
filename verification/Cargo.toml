[package]
name = "dir_inspector"
version = "0.1.0"
edition = "2021"

[dependencies]
chrono = "*"
clap = { version = "*", features = ["derive"] }
colored = "*"
walkdir = "*"
