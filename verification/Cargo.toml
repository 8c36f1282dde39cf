[package]
name = "pifbip"
version = "0.1.0"
edition = "2021"
publish = false

[dependencies]
fuzzy-matcher = "=0.3.7"
infer = "0.16"
mime_guess = "=2.0.5"
clap = { version = "4.5", features = ["derive"] }
crossterm = "0.28"
image = { version = "0.25", default-features = false, features = ["png", "jpeg", "gif", "webp", "bmp", "tiff", "ico"] }
minifb = "0.27"
viuer = "0.9"
