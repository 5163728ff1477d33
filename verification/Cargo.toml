[package]
name = "spiral"
version = "0.2.0"
edition = "2021"

[dev-dependencies]
num-traits = "0.2"
