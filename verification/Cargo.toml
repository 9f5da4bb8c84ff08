[package]
name = "mp3_tag_editor"
version = "0.1.0"
edition = "2021"
publish = false

[dependencies]
id3 = "=1.17.2"
base64 = "=0.22.1"
dioxus = { version = "=0.7.10", features = ["web"] }
reqwest = { version = "=0.12.28", default-features = false }
wasm-bindgen = "=0.2.130"
web-sys = { version = "=0.3.107", features = ["Window", "Document", "Element", "HtmlCanvasElement"] }
gloo-timers = { version = "=0.3.0", features = ["futures"] }
