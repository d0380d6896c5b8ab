[package]
name = "doc_viewer"
version = "0.1.0"
edition = "2021"
publish = false

[dependencies]
calamine = "=0.38.0"
quick-xml = "=0.37.5"
zip = { version = "=9.2.2", default-features = false, features = ["deflate"] }
zune-png = "=0.4.10"
zune-jpeg = "=0.5.15"
rustybuzz = "=0.20.1"
skrifa = "=0.49.0"
tiny-skia = "=0.11.4"
wasm-bindgen = "=0.2.130"
js-sys = "=0.3.107"
console_error_panic_hook = "=0.1.7"
