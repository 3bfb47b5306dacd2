[package]
name = "three_d_asset"
version = "0.1.0"
edition = "2021"
publish = false

[dependencies]
data-url = "=0.3.2"
gltf = "=1.4.1"
wavefront_obj = "=11.0.0"
reqwest = { version = "=0.13.5", default-features = false }
tokio = { version = "=1.54.1", features = ["rt-multi-thread", "fs", "sync", "macros", "time"] }
thiserror = "=2.0.21"
cgmath = "=0.18.0"
half = "=2.7.1"
image = { version = "=0.25.10", default-features = false, features = ["png", "jpeg", "gif", "tga", "tiff", "bmp", "hdr", "webp"] }
wasm-bindgen-futures = "=0.4.79"
web-sys = { version = "=0.3.106", features = ["Window", "Document"] }
