[package]
name = "core_network"
version = "0.1.0"
edition = "2021"
publish = false

[dependencies]
libp2p = { version = "0.57", default-features = false }
wasm-bindgen = { version = "0.2" }
js-sys = { version = "0.3" }
