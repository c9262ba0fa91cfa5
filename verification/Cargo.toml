[package]
name = "arpy"
version = "0.1.0"
edition = "2021"
publish = false

[dependencies]
bincode = "=1.3.3"
slotmap = { version = "=1.1.1", features = ["serde"] }
heck = "=0.4.1"
serde = { version = "=1.0.229", features = ["derive"] }
serde_json = "=1.0.154"
ciborium = "=0.2.2"
serde_urlencoded = "=0.7.1"
futures = "=0.3.34"
tokio = { version = "=1.54.1", features = ["rt", "sync", "macros"] }
tokio-stream = "=0.1.19"
axum = { version = "=0.6.20", features = ["ws"] }
hyper = "=0.14.32"
actix-web = { version = "=4.18.1", default-features = false, features = ["macros", "ws"] }
actix-ws = "=0.2.5"
actix-rt = "=2.15.0"
async-trait = "=0.1.92"
pin-project = "=1.1.13"
tracing = "=0.1.44"
thiserror = "=1.0.69"
reqwest = { version = "=0.11.27", default-features = false }
reqwasm = "0.5"
gloo-net = { version = "0.2", features = ["eventsource"] }
web-sys = { version = "0.3", features = ["MessageEvent"] }
js-sys = "0.3"
wasm-bindgen-futures = "0.4"
ra_ap_syntax = "=0.0.149"
tower-http = { version = "0.4", features = ["cors"] }
