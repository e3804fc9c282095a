[package]
name = "fisheye_defish"
version = "0.1.0"
edition = "2021"
publish = false

[dependencies]
clap = { version = "4", features = ["derive"] }
image = { version = "0.25", default-features = false, features = ["bmp", "gif", "jpeg", "png", "tiff", "webp"] }
kamadak-exif = "0.6"
little_exif = "0.6"
rayon = "1"
