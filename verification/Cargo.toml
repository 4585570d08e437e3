[package]
name = "image_preparer"
version = "0.1.0"
edition = "2021"
publish = false

[dependencies]
anyhow = "*"
clap = { version = "*", features = ["derive"] }
env_logger = "*"
id3 = "*"
image = "*"
imagequant = "*"
indicatif = "*"
lodepng = "*"
log = "*"
oxipng = "*"
rayon = "*"
thiserror = "*"
walkdir = "*"
