[package]
name = "qgfx"
version = "0.1.0"
edition = "2021"
publish = false

[dependencies]
glium = "=0.36.0"
winit = "=0.30.13"
image = { version = "=0.25.10", default-features = false, features = ["bmp", "dds", "gif", "hdr", "ico", "jpeg", "png", "pnm", "tga", "tiff", "webp"] }
rusttype = "=0.9.3"
