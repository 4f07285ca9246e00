[package]
name = "dupefinder"
version = "0.1.0"
edition = "2021"
publish = false

[dependencies]
sha2 = "0.10.9"
hex = "0.4.3"
walkdir = "2.5.0"
rayon = "1.10.0"
serde = { version = "1.0", features = ["derive"] }
serde_json = "1.0"
eframe = { version = "0.31", default-features = false, features = ["glow", "default_fonts", "x11"] }
rfd = "0.15"
