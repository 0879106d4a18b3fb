[package]
name = "link_parsing"
version = "0.1.0"
edition = "2021"
publish = false

[dependencies]
fancy-regex = "=0.20.0"
once_cell = "=1.21.4"
