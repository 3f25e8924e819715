[package]
name = "rpbres"
version = "0.1.0"
edition = "2021"
publish = false

[dependencies]
miniz_oxide = "=0.8.9"
clap = { version = "=4.6.7", features = ["cargo"] }
image = { version = "=0.24.9", default-features = false, features = ["png", "jpeg", "gif", "bmp"] }

[dev-dependencies]
yazi = "=0.2.1"
