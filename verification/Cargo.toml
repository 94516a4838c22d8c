[package]
name = "pixel_art_editor"
version = "0.1.0"
edition = "2021"
publish = false

[dependencies]
eframe = { version = "0.22", default-features = false, features = ["default_fonts", "glow"] }
egui = { version = "0.22", features = ["serde"] }
png = "0.17"
serde = { version = "1", features = ["derive"] }
