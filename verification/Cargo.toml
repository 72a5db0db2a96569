[package]
name = "zombs_engine"
version = "0.1.0"
edition = "2021"
publish = false

[dependencies]
bytemuck = { version = "1.24", features = ["derive"] }
getrandom = { version = "0.2", features = ["js"] }
glam = "0.25"
hecs = "0.10"
image = { version = "0.24", default-features = false, features = ["png"] }
rand = "0.8"
wasm-bindgen = "0.2"
wasm-bindgen-futures = "0.4"
web-sys = { version = "0.3", features = ["HtmlCanvasElement", "Window", "Document", "Element", "console"] }
wgpu = "23"
