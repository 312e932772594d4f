[package]
name = "serde_valid"
version = "0.1.0"
edition = "2021"
publish = false

[dependencies]
regex = "=1.13.1"
strsim = "=0.11.1"
unicode-segmentation = "*"
