[package]
name = "kardhub"
version = "0.1.0"
edition = "2021"
publish = false

[dependencies]
regex = "1"
pulldown-cmark = "0.12"
serde = { version = "1", features = ["derive"] }
serde_json = "1"
chrono = { version = "0.4", features = ["serde"] }
reqwest = { version = "0.12", default-features = false, features = ["json", "rustls-tls"] }
tokio = { version = "1", features = ["macros", "rt-multi-thread"] }
wasm-bindgen = "0.2"
