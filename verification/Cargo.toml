[package]
name = "bmfont_rs"
version = "0.1.0"
edition = "2021"
publish = false

[dependencies]
roxmltree = "=0.21.1"
serde_json = "=1.0.151"
