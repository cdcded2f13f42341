[package]
name = "mimesis"
version = "0.1.0"
edition = "2021"
publish = false

[dependencies]
anyhow = "1.0"
bit-vec = "0.8"
clap = { version = "4.5", features = ["derive"] }
earcutr = "0.4"
fast_image_resize = "5"
geo = "0.30"
image = { version = "0.25", default-features = false, features = ["png", "jpeg", "bmp", "tga", "tiff"] }
imageproc = { version = "0.25", default-features = false }
ndarray = "0.16"
num-traits = "0.2"
ort = { version = "=2.0.0-rc.15", default-features = false, features = ["std", "ndarray"] }
rayon = "1.10"
serde = { version = "1.0", features = ["derive"] }
serde_json = "1.0"
toml = "0.8"
