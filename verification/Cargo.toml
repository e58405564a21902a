[package]
name = "contrast_compare"
version = "0.1.0"
edition = "2021"
publish = false

[dependencies]
colors-transform = "*"
image = "*"
