[package]
name = "n0_future"
version = "0.1.0"
edition = "2021"
publish = false

[dependencies]
derive_more = { version = "*", features = ["debug", "deref", "display"] }
futures-buffered = "0.2"
futures-lite = "2"
futures-util = { version = "0.3", features = ["sink"] }
pin-project = "1"
send_wrapper = "0.6"
tokio = { version = "1", features = ["rt", "time"] }
tokio-util = { version = "0.7", features = ["rt"] }
wasm-bindgen-futures = "0.4"
