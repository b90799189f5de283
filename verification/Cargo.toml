[package]
name = "logviewer"
version = "0.1.0"
edition = "2021"
publish = false

[dependencies]
regex = "=1.13.1"
chrono = { version = "=0.4.45", default-features = false, features = ["std"] }
tree-sitter = "=0.25.10"
tantivy = { version = "=0.22.1", default-features = false, features = ["mmap"] }
serde_json = "=1.0.154"
tokio = { version = "=1.54.1", features = ["rt-multi-thread", "sync", "time"] }
log = "=0.4.35"
env_logger = { version = "=0.11.11", default-features = false }
egui = "0.31"
egui_extras = { version = "0.31", default-features = false }
egui_plot = "0.31"
egui_material_icons = "0.3"
eframe = { version = "0.31", default-features = false, features = ["glow", "default_fonts", "x11"] }
image = { version = "0.25", default-features = false, features = ["png"] }
