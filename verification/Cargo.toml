[package]
name = "fab_line"
version = "0.1.0"
edition = "2021"
publish = false

[dependencies]
form_urlencoded = "1"
serde = { version = "1", features = ["derive"] }
serde_json = "1"
wit-bindgen = { version = "*", features = ["async", "async-spawn"] }
