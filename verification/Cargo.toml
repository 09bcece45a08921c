[package]
name = "jorge-a-day"
version = "0.1.0"
edition = "2021"
publish = false

[dependencies]
actix-web = { version = "=4.18.1", features = ["openssl"] }
anyhow = "=1.0.104"
askama = "=0.16.1"
chrono = { version = "=0.4.45", features = ["serde"] }
confique = { version = "=0.4.0", features = ["toml"] }
env_logger = "=0.11.11"
image = { version = "=0.25.10", default-features = false, features = ["bmp", "gif", "ico", "jpeg", "png", "tiff", "webp"] }
imghdr = "=0.7.0"
kamadak-exif = "=0.6.1"
log = "=0.4.34"
notify = "=8.2.0"
openssl = "=0.10.81"
rand = "=0.9.5"
serde = { version = "=1.0.229", features = ["derive"] }
tokio = { version = "=1.54.1", features = ["full"] }
uuid = { version = "=1.29.0", features = ["v4"] }
walkdir = "=2.5.0"
webp = "=0.3.1"
