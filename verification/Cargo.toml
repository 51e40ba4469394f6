[package]
name = "mvr"
version = "0.1.0"
edition = "2021"
publish = false

[dependencies]
anyhow = "1"
clap = { version = "4", features = ["cargo"] }
dissimilar = "1"
regex = "1"

[dev-dependencies]
tempfile = "3"
