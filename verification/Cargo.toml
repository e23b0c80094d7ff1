[package]
name = "grace_chat"
version = "0.1.0"
edition = "2021"
publish = false

[dependencies]
wasm-bindgen = "=0.2.129"
js-sys = "=0.3.106"
web-sys = { version = "=0.3.106", features = ["WebSocket", "MessageEvent", "CloseEvent", "ErrorEvent", "Event", "EventTarget", "console", "Window", "Document", "Element", "HtmlElement", "HtmlInputElement", "KeyboardEvent", "Node", "HtmlHeadElement", "DomTokenList", "Request", "RequestInit", "RequestMode", "Response"] }
wasm-bindgen-futures = "=0.4.79"
console_error_panic_hook = "=0.1.7"
serde = { version = "=1.0.229", features = ["derive"] }
serde_json = "=1.0.151"
