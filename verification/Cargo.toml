[package]
name = "meerkat_lib"
version = "0.1.0"
edition = "2021"
publish = false

[dependencies]
petgraph = "0.6"
anyhow = "1"
clap = { version = "4", features = ["derive"] }
console_error_panic_hook = "0.1"
env_logger = "0.11"
futures = "0.3"
gloo-timers = { version = "0.3", features = ["futures"] }
libp2p = { version = "*", default-features = false }
log = "0.4"
serde = { version = "1", features = ["derive"] }
serde_json = "1"
tokio = { version = "1", features = ["rt-multi-thread", "macros", "time"] }
wasm-bindgen = "0.2"
wasm-bindgen-futures = "0.4"
web-sys = { version = "0.3", features = ["Window", "Document", "Element", "EventTarget", "Node"] }
