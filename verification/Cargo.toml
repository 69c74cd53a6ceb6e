[package]
name = "bnotes"
version = "0.1.0"
edition = "2021"
publish = false

[dependencies]
anyhow = "1"
chrono = "0.4"
clap = { version = "4", features = ["derive"] }
pulldown-cmark = { version = "0.13", default-features = false }
regex = "1"
serde = { version = "1", features = ["derive"] }
serde_yaml = "0.9"
termcolor = "1"
toml = "0.8"
wildmatch = "2"
