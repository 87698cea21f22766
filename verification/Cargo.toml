[package]
name = "many_eyes"
version = "0.1.0"
edition = "2021"
publish = false

[dependencies]
axum = { version = "0.7", features = ["ws"] }
tokio = { version = "1", features = ["full"] }
tower-http = { version = "0.5", features = ["fs", "cors"] }
futures = "0.3"
serde = { version = "1", features = ["derive"] }
serde_json = "1"
tracing = "0.1"
tracing-subscriber = "0.3"
rand = "0.8"
yew = { version = "0.21", features = ["csr"] }
gloo = "0.11"
gloo-net = { version = "0.5", features = ["websocket"] }
log = "0.4"
wasm-bindgen = "0.2"
wasm-bindgen-futures = "0.4"
wasm-logger = "0.2"
console_error_panic_hook = "0.1"
web-sys = { version = "0.3", features = ["HtmlInputElement", "HtmlCanvasElement", "CanvasRenderingContext2d", "Window"] }
