[package]
name = "w4v"
version = "0.1.0"
edition = "2021"
publish = false

[dependencies]
rand = "0.8"
hound = "3.5"
clap = { version = "4", features = ["derive"] }
wasm-bindgen = "0.2"
js-sys = "0.3"
