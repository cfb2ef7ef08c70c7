[package]
name = "racing_pedal_overlay"
version = "0.3.0"
edition = "2021"
publish = false

[dependencies]
eframe = { version = "=0.29.1", default-features = false, features = ["default_fonts", "glow", "x11"] }
egui = "=0.29.1"
egui_plot = "=0.29.0"
gilrs = { version = "0.11", default-features = false, features = ["xinput"] }
