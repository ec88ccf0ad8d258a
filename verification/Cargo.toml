[package]
name = "stable_fluids"
version = "0.1.0"
edition = "2021"
publish = false

[dependencies]
console_error_panic_hook = "0.1"
gloo-timers = "0.3"
wasm-bindgen = "0.2"
web-sys = { version = "0.3", features = ["CanvasRenderingContext2d", "Document", "Element", "Event", "EventTarget", "HtmlCanvasElement", "HtmlInputElement", "InputEvent", "MouseEvent", "Window"] }
yew = { version = "0.21", features = ["csr"] }
