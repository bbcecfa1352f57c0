[package]
name = "jasp"
version = "0.1.0"
edition = "2021"
publish = false

[dependencies]
Inflector = { version = "0.11", default-features = false }
console_error_panic_hook = "0.1"
js-sys = "0.3"
ordered-float = "*"
serde = { version = "1", features = ["derive"] }
serde-wasm-bindgen = "*"
serde_json = "1"
wasm-bindgen = "0.2"
