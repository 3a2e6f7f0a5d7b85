[package]
name = "document_factory"
version = "0.1.0"
edition = "2021"
publish = false

[dependencies]
lopdf = "*"
js-sys = "*"
wasm-bindgen = "*"
