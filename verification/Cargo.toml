[package]
name = "convert_tex"
version = "0.1.0"
edition = "2021"
publish = false

[dependencies]
anyhow = "1"
flate2 = "1"
tar = "0.4"
walkdir = "2"
