[package]
name = "download_it"
version = "0.1.0"
edition = "2021"
publish = false

[dependencies]
dirs = "*"
clap = { version = "*", features = ["derive"] }
curl = "*"
rusqlite = { version = "*", features = ["bundled"] }
indicatif = "*"
