[package]
name = "rfitsio"
version = "0.3.0"
edition = "2021"
publish = false

[dependencies]
eframe = { version = "*", default-features = false, features = ["default_fonts", "glow", "x11"] }
rfd = "*"
