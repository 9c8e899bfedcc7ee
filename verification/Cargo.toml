[package]
name = "salieri"
version = "0.1.0"
edition = "2021"
publish = false

[dependencies]
serde = { version = "=1.0.229", features = ["derive"] }
serde_json = "=1.0.151"
chrono = "=0.4.45"
uuid = { version = "=1.27.0", features = ["v4"] }
rand = "=0.8.8"
rand_xorshift = "=0.3.0"
base64 = "=0.22.1"
thiserror = "=1.0.69"
futures-util = "=0.3.34"
async-stream = "=0.3.6"
worker = { version = "=0.8.7", features = ["timezone"] }
js-sys = "=0.3.106"
wasm-bindgen-futures = "=0.4.79"
