[package]
name = "jxcel"
version = "0.1.0"
edition = "2021"
publish = false

[dependencies]
tauri-utils = { version = "2", default-features = false }
reqwest = { version = "0.12", default-features = false, features = ["blocking", "rustls-tls"] }
rustls = { version = "0.23", default-features = false, features = ["ring", "std"] }
