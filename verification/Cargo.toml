[package]
name = "path_visualizer"
version = "0.1.0"
edition = "2021"
publish = false

[dependencies]
gloo = "0.8"
js-sys = "0.3"
wasm-bindgen = "0.2"
wasm-logger = "0.2"
web-sys = { version = "0.3", features = ["DomRect", "Element", "HtmlCanvasElement", "HtmlInputElement", "HtmlSelectElement", "WebGl2RenderingContext", "WebGlBuffer", "WebGlProgram", "WebGlShader", "WebGlUniformLocation", "WebGlVertexArrayObject", "Window"] }
yew = { version = "0.20", features = ["csr"] }
