[package]
name = "wsl_controller"
version = "0.1.0"
edition = "2021"
publish = false

[dependencies]
anyhow = "1"
eframe = { version = "0.33", default-features = false, features = ["default_fonts", "glow", "x11"] }
tray-icon = { version = "0.21", default-features = false }
