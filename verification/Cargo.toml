[package]
name = "infinishield"
version = "0.1.0"
edition = "2021"
publish = false

[dependencies]
sha2 = "0.10"
rand = "0.8"
rand_chacha = "0.3"
image = { version = "0.25", default-features = false, features = ["png", "jpeg", "webp", "bmp", "tiff", "gif"] }
imageproc = { version = "0.25", default-features = false }
clap = { version = "4", features = ["derive"] }
ffmpeg-next = "7"
