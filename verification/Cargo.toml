[package]
name = "bulk_rename"
version = "0.1.0"
edition = "2021"
publish = false

[dependencies]
chrono = { version = "0.4", default-features = false, features = ["clock", "std"] }
directories = "5"
egui = { version = "0.27", default-features = false }
image = { version = "0.24", default-features = false, features = ["png", "jpeg", "gif", "bmp", "ico", "webp"] }
serde = { version = "1", features = ["derive"] }
serde_json = "1"
