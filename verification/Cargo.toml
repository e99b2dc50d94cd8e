[package]
name = "web_bench_ui"
version = "0.1.0"
edition = "2021"
publish = false

[dependencies]
itertools = "*"
serde = { version = "1", features = ["derive"] }
yew = { version = "*", features = ["csr"] }
gloo-net = "*"
wasm-bindgen-futures = "*"
