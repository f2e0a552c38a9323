[package]
name = "open_otk_browser"
version = "0.1.0"
edition = "2021"
publish = false

[dependencies]
tiny-skia = "0.11"
winit = "0.29"
softbuffer = "0.4"
