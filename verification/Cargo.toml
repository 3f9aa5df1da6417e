[package]
name = "connect_four_solver"
version = "0.1.0"
edition = "2021"
publish = false

[dependencies]
eframe = { version = "0.29", default-features = false, features = ["default_fonts", "glow", "x11"] }
env_logger = "0.11"
image = { version = "0.25", default-features = false, features = ["ico", "png"] }
log = "0.4"
serde = { version = "1", features = ["derive"] }
