[package]
name = "bandcomic_helper"
version = "0.1.0"
edition = "2021"
publish = false

[dependencies]
serde_json = "1"
image = { version = "0.25", default-features = false, features = ["png", "jpeg", "webp", "bmp", "gif"] }
tracing = "0.1"
waki = "*"
wit-bindgen = "*"
