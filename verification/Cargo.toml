[package]
name = "babel_filter"
version = "0.1.0"
edition = "2021"
publish = false

[dependencies]
ahash = "0.8"
camino = "1"
clap = { version = "4", features = ["derive"] }
flate2 = "1"
serde_json = "1"
