[package]
name = "vesad"
version = "0.1.0"
edition = "2021"
publish = false

[dependencies]
rusttype = "0.9"
