[package]
name = "rustforge"
version = "0.1.0"
edition = "2021"
publish = false

[dependencies]
tokio = { version = "1", features = ["rt"] }
libfuzzer-sys = { version = "0.4", default-features = false }
