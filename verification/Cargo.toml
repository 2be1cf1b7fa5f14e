[package]
name = "habit_tracker"
version = "0.1.0"
edition = "2021"
publish = false

[dependencies]
chrono = { version = "0.4", default-features = false, features = ["clock", "std"] }
clap = { version = "3", features = ["derive"] }
serde_json = { version = "1", features = ["preserve_order"] }
