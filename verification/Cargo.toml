[package]
name = "yalla"
version = "0.1.0"
edition = "2021"
publish = false

[dependencies]
anyhow = "=1.0.104"
clap = { version = "=4.6.7", features = ["string"] }
shlex = "=2.0.1"
toml = "=1.1.7"
