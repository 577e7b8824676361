[package]
name = "cgraph"
version = "0.1.0"
edition = "2021"
publish = false

[dependencies]
nucleo-matcher = "=0.3.1"
petgraph = "=0.8.3"
unicode-width = "=0.2.3"
anyhow = "=1.0.104"
serde = { version = "=1.0.229", features = ["derive"] }
toml = "=1.1.8"
clap = { version = "=4.6.7", features = ["derive"] }
url = "2"
