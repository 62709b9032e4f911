[package]
name = "barcoders"
version = "3.0.0"
edition = "2021"
publish = false

[dependencies]
image = { version = "0.25", default-features = false, features = ["gif", "png", "webp"] }
