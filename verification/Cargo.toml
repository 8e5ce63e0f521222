[package]
name = "mcap_player"
version = "0.1.0"
edition = "2021"
publish = false

[dependencies]
bytes = "=1.12.1"
mcap = "=0.26.0"
zstd = "=0.14.3"
serde = { version = "=1.0.229", features = ["derive"] }
serde_json = "=1.0.154"
bytemuck = { version = "=1.25.2", features = ["derive"] }
wgpu = { version = "=27.0.1", default-features = false, features = ["wgsl", "webgpu", "std"] }
web-time = "=1.1.0"
wasm-bindgen = "=0.2.130"
wasm-bindgen-futures = "=0.4.80"
js-sys = "=0.3.107"
web-sys = { version = "=0.3.107", features = ["AbortController", "AbortSignal", "Blob", "CanvasRenderingContext2d", "Document", "Element", "Event", "EventTarget", "File", "FileList", "Headers", "HtmlButtonElement", "HtmlCanvasElement", "HtmlElement", "HtmlInputElement", "HtmlOptionElement", "HtmlSelectElement", "ImageData", "Location", "Node", "Request", "RequestInit", "RequestMode", "Response", "Url", "UrlSearchParams", "Window"] }
