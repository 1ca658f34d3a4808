[package]
name = "audioscan"
version = "0.1.0"
edition = "2021"
publish = false

[dependencies]
clap = { version = "4", features = ["derive"] }
ebur128 = "0.1"
indicatif = "0.17"
serde = { version = "1", features = ["derive"] }
serde_json = "1"
wavers = "*"
