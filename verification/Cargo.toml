[package]
name = "planet_tiles"
version = "0.1.0"
edition = "2021"
publish = false

[dependencies]
httparse = "1"
image = { version = "0.22", default-features = false, features = ["png_codec"] }
json = "0.12"
noise = { version = "0.7", default-features = false }
rand = "0.7"
