[package]
name = "mutiny-core"
version = "0.1.0"
edition = "2021"
publish = false

[dependencies]
bdk_chain = "0.5"
bip39 = { version = "2.0", features = ["serde"] }
bitcoin = "0.29.2"
instant = "0.1"
js-sys = "0.3"
lightning = "=0.0.116"
log = "0.4"
serde = { version = "1.0", features = ["derive"] }
serde_json = "1.0"
tokio = { version = "1", features = ["rt"] }
wasm-bindgen-futures = "0.4"
web-sys = { version = "0.3", features = ["Window"] }

[dev-dependencies]
getrandom = "0.2"
uuid = { version = "1", features = ["v4"] }
