[package]
name = "rustydlp"
version = "0.1.0"
edition = "2021"
publish = false

[dependencies]
anyhow = "1"
cosmic-text = "0.14"
cpal = "*"
dirs = "*"
futures-channel = "0.3"
pollster = "*"
resvg = "*"
rusqlite = { version = "*", features = ["bundled"] }
serde = { version = "1", features = ["derive"] }
serde_json = "1"
softbuffer = "0.4"
taffy = "*"
winit = "0.30"
