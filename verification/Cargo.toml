[package]
name = "pdf_text"
version = "0.1.0"
edition = "2021"
publish = false

[dependencies]
wasm-bindgen = "=0.2.129"

[dev-dependencies]
flate2 = "=1.1.10"
pdf-extract = "=0.12.1"
