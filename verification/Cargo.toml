[package]
name = "othello"
version = "0.1.0"
edition = "2021"
publish = false

[dependencies]
wasm-bindgen = "0.2"
web-sys = { version = "0.3", default-features = false, features = ["CanvasRenderingContext2d", "HtmlCanvasElement", "MouseEvent", "Element", "DomRect"] }
console_error_panic_hook = "0.1"
