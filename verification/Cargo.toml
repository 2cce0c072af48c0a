[package]
name = "some_graphics"
version = "0.1.0"
edition = "2021"
publish = false

[dependencies]
winit = "0.25"
winapi = { version = "0.3", features = ["winuser", "wingdi"] }
