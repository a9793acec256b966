[package]
name = "catalyst"
version = "0.1.0"
edition = "2021"
publish = false

[dependencies]
serde = { version = "*", features = ["derive"] }
serde_yaml = "*"
minijinja = "*"
pulldown-cmark = "*"
chrono = "*"
notify = "*"
walkdir = "*"
clap = { version = "*", features = ["derive"] }
