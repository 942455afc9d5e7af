[package]
name = "keyd_live_graph"
version = "0.1.0"
edition = "2021"
publish = false

[dependencies]
anyhow = "1"
crossbeam-channel = "0.5"
eframe = { version = "0.22", default-features = false, features = ["default_fonts", "glow"] }
evdev = "0.13"
inotify = "0.11"
