[package]
name = "diamond"
version = "0.1.0"
edition = "2021"
publish = false

[dependencies]
anyhow = "1"
regex = "1"
rusqlite = { version = "*", features = ["bundled"] }
structopt = "0.3"
