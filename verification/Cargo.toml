[package]
name = "egui_fractals"
version = "0.1.0"
edition = "2021"
publish = false

[dependencies]
egui = "*"
eframe = { version = "*", default-features = false, features = ["default_fonts", "glow", "persistence", "x11"] }
log = "*"
serde = { version = "*", features = ["derive"] }
rayon = "*"
