[package]
name = "kaze"
version = "0.1.0"
edition = "2021"
publish = false

[dependencies]
anyhow = "=1.0.104"
chrono = { version = "0.4", default-features = false, features = ["clock"] }
env_logger = "=0.11.11"
rust-embed = "=8.13.0"
