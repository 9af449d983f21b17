[package]
name = "apollo18_renderer"
version = "0.1.0"
edition = "2021"
publish = false

[dependencies]
image = { version = "=0.25.10", default-features = false, features = ["jpeg"] }
time = { version = "=0.3.55", default-features = false, features = ["parsing", "std"] }
glam = "=0.34.2"
png = "=0.18.1"
serde = { version = "=1.0.229", features = ["derive"] }
serde_json = "=1.0.154"
tiff = "*"
wasm-bindgen = "=0.2.130"
web-sys = { version = "=0.3.107", features = ["Window", "Document", "Element", "HtmlCanvasElement", "CanvasRenderingContext2d", "ImageData", "DomRect", "console"] }
console_error_panic_hook = "=0.1.7"
