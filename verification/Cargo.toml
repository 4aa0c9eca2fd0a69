[package]
name = "fileql"
version = "0.1.0"
edition = "2021"
publish = false

[dependencies]
clap = { version = "4", features = ["derive"] }
colored = "2"
fuzzy-matcher = "0.3"
rayon = "1"
walkdir = "2"

[dev-dependencies]
regex = "1"
