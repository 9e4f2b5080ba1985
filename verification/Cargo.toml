[package]
name = "blickfang"
version = "0.1.0"
edition = "2021"
publish = false

[dependencies]
base64 = "*"
image = { version = "*", default-features = false, features = ["png", "jpeg", "webp", "bmp", "gif", "tiff"] }
kamadak-exif = "*"
mime_guess = "*"
rusttype = "*"
serde = { version = "*", features = ["derive"] }
serde_json = "*"
webp = "*"
