[package]
name = "sharpr"
version = "0.1.0"
edition = "2021"
publish = false

[dependencies]
image = { version = "0.25", default-features = false, features = ["png", "jpeg", "webp", "gif", "bmp", "tiff"] }
itoa = "1"
rexiv2 = "0.10"
serde = { version = "1", features = ["derive"] }
serde_json = "1"
