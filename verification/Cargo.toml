[package]
name = "ico_builder"
version = "0.1.0"
edition = "2021"

[dependencies]
image = { version = "0.25", default-features = false, features = ["bmp", "ico", "png"] }
