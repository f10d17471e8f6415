[package]
name = "coccinelleforrust"
version = "0.1.0"
edition = "2021"
publish = false

[dependencies]
ra_ap_syntax = "=0.0.330"
regex = "=1.13.1"
clap = { version = "=4.6.7", features = ["derive"] }
rayon = "=1.12.0"
rand = "=0.8.8"
tempfile = "=3.27.0"
env_logger = "=0.11.11"
