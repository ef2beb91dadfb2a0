[package]
name = "grimdock"
version = "0.1.0"
edition = "2021"
publish = false

[dependencies]
egui = { version = "=0.32.3", features = ["serde"] }
serde = { version = "=1.0.229", features = ["derive"] }
