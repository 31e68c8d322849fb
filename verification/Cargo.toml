[package]
name = "image_sieve"
version = "0.1.0"
edition = "2021"
publish = false

[dependencies]
img_hash = "3.2"
home = "0.5"
chrono = "0.4"
walkdir = "2"
serde = { version = "1", features = ["derive"] }
serde_json = "1"
kamadak-exif = "0.5"
image = "0.23"

[dev-dependencies]
base64 = "0.22"
