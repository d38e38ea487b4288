[package]
name = "temty"
version = "0.1.0"
edition = "2021"
publish = false

[dependencies]
dotenv = "0.15"
futures-util = { version = "0.3", features = ["sink"] }
js-sys = "0.3"
rand = "0.8"
serde = { version = "1", features = ["derive"] }
serde_json = "1"
sqlx = { version = "0.7", default-features = false, features = ["runtime-tokio", "postgres"] }
tokio = { version = "1", features = ["full"] }
tokio-tungstenite = "0.21"
uuid = { version = "1", features = ["v4"] }
wasm-bindgen = "0.2"
web-sys = { version = "0.3", features = ["CanvasRenderingContext2d", "Document", "DomRect", "Element", "Event", "EventTarget", "HtmlCanvasElement", "HtmlElement", "ImageData", "MessageEvent", "MouseEvent", "Node", "Performance", "Storage", "Touch", "TouchEvent", "TouchList", "WebSocket", "WheelEvent", "Window"] }
