[package]
name = "heif-convert"
version = "0.1.0"
edition = "2021"
publish = false

[dependencies]
anyhow = "1"
chrono = "0.4"
clap = { version = "4", features = ["derive"] }
glob = "0.3"
ico = "0.3"
image = { version = "0.25", default-features = false, features = ["jpeg", "png", "webp", "gif", "tiff", "bmp", "ico"] }
img-parts = "0.3"
libheif-rs = "1"
log = { version = "0.4", features = ["std"] }
