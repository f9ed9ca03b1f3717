[package]
name = "portscanner"
version = "0.1.0"
edition = "2021"
publish = false

[dependencies]
regex = "1"
rand = "*"
rayon = "1"
indicatif = "*"
dirs = "*"
image = { version = "*", default-features = false, features = ["png"] }
eframe = { version = "*", default-features = false, features = ["default_fonts", "glow", "x11"] }
