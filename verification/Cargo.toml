[package]
name = "grid_bots"
version = "0.1.0"
edition = "2021"
publish = false

[dependencies]
rand = "0.8"
random_color = "0.6"
yew = "0.19"
gloo-file = "0.2"
gloo-timers = "0.2"
js-sys = "0.3"
web-sys = { version = "0.3", features = ["Event", "File", "FileList", "HtmlInputElement"] }
log = "0.4"
wasm-logger = "0.2"
