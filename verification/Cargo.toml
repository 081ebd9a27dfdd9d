[package]
name = "todors"
version = "0.1.0"
edition = "2021"
publish = false

[dependencies]
chrono = { version = "0.4", default-features = false, features = ["now"] }
eframe = { version = "0.31.1", default-features = false, features = ["default_fonts", "glow", "x11"] }
egui_extras = { version = "0.31.1", default-features = false }
env_logger = { version = "0.11", default-features = false }
