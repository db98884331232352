[package]
name = "fox_cull"
version = "0.1.0"
edition = "2021"
publish = false

[dependencies]
kamadak-exif = "0.6"
image = { version = "0.25", default-features = false, features = ["jpeg", "png", "webp", "bmp", "tiff", "gif"] }
jpeg-decoder = "0.3"
parking_lot = "0.12"
rayon = "1"
rusqlite = { version = "0.32", features = ["bundled"] }
serde = { version = "1", features = ["derive"] }
serde_json = "1"
trash = "5"
