[package]
name = "ferrite"
version = "0.1.0"
edition = "2021"
publish = false

[dependencies]
lru = "=0.12.5"
image = { version = "=0.24.9", default-features = false, features = ["jpeg", "png", "gif", "bmp"] }
egui = { version = "=0.26.2", default-features = false }
