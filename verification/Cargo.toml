[package]
name = "contrast_checker"
version = "0.1.1"
edition = "2021"
publish = false

[dependencies]
clap = "=2.34.0"
contrast = "=0.1.1"
rgb = "=0.8.53"
