[package]
name = "quick_reader"
version = "0.1.0"
edition = "2021"
publish = false

[dependencies]
unicode-segmentation = "=1.13.3"
serde = { version = "=1.0.229", features = ["derive"] }
serde_json = "=1.0.154"
serde-wasm-bindgen = "=0.5.0"
thiserror = "=1.0.69"
log = "=0.4.34"
leptos = { version = "=0.5.7", features = ["csr"] }
leptos_router = { version = "=0.5.7", features = ["csr"] }
wasm-bindgen = "=0.2.129"
web-sys = { version = "=0.3.106", features = ["Window", "Document", "Storage", "Selection", "MediaQueryList", "HtmlTextAreaElement", "HtmlButtonElement", "HtmlSpanElement", "HtmlAnchorElement", "CssStyleDeclaration", "DomRect", "KeyboardEvent", "MouseEvent", "Element", "HtmlElement"] }
font-kit = "=0.14.3"
