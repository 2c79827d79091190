[package]
name = "sce_parser"
version = "0.1.0"
edition = "2021"
publish = false

[dependencies]
scraper = "*"
wasm-bindgen = "*"
js-sys = "*"
wasm-bindgen-futures = "*"

[dependencies.web-sys]
version = "*"
features = ["Window", "Request", "RequestInit", "RequestMode", "Response"]

[dev-dependencies]
serde_json = "*"
