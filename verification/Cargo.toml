[package]
name = "slam_vision"
version = "0.1.0"
edition = "2021"
publish = false

[dependencies]
nalgebra = "=0.29.0"
ndarray = "=0.15.6"
nshare = { version = "=0.8.0", features = ["nalgebra", "ndarray"] }
num-traits = "*"
ndarray-stats = "=0.5.1"
float-ord = "=0.3.2"
rs-graph = "*"
tri-mesh = "=0.5.0"
sparse21 = "=0.2.1"
wasm-bindgen = "*"
js-sys = "*"
web-sys = { version = "*", features = ["ImageData", "console"] }
console_error_panic_hook = "*"
anyhow = "*"
