[package]
name = "propellant"
version = "0.1.0"
edition = "2021"
publish = false

[dependencies]
image = { version = "=0.25.10", default-features = false, features = ["bmp", "dds", "exr", "ff", "gif", "hdr", "ico", "jpeg", "png", "pnm", "qoi", "tga", "tiff", "webp"] }
glam = "=0.34.2"
fontdue = "=0.9.5"
vulkanalia = "=0.35.0"
