[package]
name = "sd"
version = "0.1.0"
edition = "2021"
publish = false

[dependencies]
regex = "1"
clap = { version = "4", features = ["derive"] }
glob = "0.3"
memmap2 = "0.9"
rayon = "1"
tempfile = "3"
thiserror = "1"
