[package]
name = "subimage_search"
version = "0.1.0"
edition = "2021"
publish = false

[dependencies]
console_log = "1"
gloo = "0.11"
js-sys = "0.3"
log = "0.4"
wasm-bindgen = "0.2"
wasm-bindgen-futures = "0.4"
web-sys = { version = "0.3", features = ["Blob", "CanvasRenderingContext2d", "DataTransfer", "Document", "DragEvent", "Element", "Event", "EventTarget", "File", "FileList", "FileReader", "HtmlCanvasElement", "HtmlElement", "HtmlImageElement", "HtmlInputElement", "ImageData", "InputEvent", "Window"] }
yew = { version = "0.21", features = ["csr"] }
