[package]
name = "sruler"
version = "0.1.0"
edition = "2021"
publish = false

[dependencies]
anyhow = "1"
arboard = "3"
eframe = { version = "*", default-features = false, features = ["glow", "wayland", "default_fonts"] }
egui = "*"
image = { version = "*", default-features = false, features = ["png"] }
wayland-client = "0.31"
wayland-protocols-wlr = { version = "0.3", features = ["client"] }
