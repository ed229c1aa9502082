[package]
name = "typst_mathjax"
version = "0.1.0"
edition = "2021"
publish = false

[dependencies]
itertools = "=0.15.0"
serde_json = "=1.0.154"
typst-syntax = "=0.13.1"
walkdir = "=2.5.0"
wasm-bindgen = "=0.2.129"

[dev-dependencies]
regex = "=1.13.1"
