[package]
name = "aimf_compiler"
version = "0.1.0"
edition = "2021"
publish = false

[dependencies]
glob = "0.3"
sha2 = "0.10"
hex = "0.4"
regex = "1"
chrono = "0.4"
walkdir = "2"
clap = { version = "4", features = ["derive"] }
