[package]
name = "rpaint"
version = "0.1.0"
edition = "2021"
publish = false

[dependencies]
egui = "0.26"
serde = { version = "1", features = ["derive"] }
serde_json = "1"
