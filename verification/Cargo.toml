[package]
name = "quilt"
version = "0.1.0"
edition = "2021"
publish = false

[dependencies]
pulldown-cmark = "*"
toml = "*"
time = "*"
walkdir = "*"
serde = "*"
serde_derive = "*"
