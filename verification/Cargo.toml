[package]
name = "blur_autoclicker"
version = "3.4.1"
edition = "2021"
publish = false

[dependencies]
log = "0.4"
tauri = { version = "2", default-features = false }
