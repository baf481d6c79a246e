[package]
name = "open_duck_playground"
version = "0.1.0"
edition = "2021"
publish = false

[dependencies]
chrono = "0.4"
itertools = "*"
serde = { version = "1", features = ["derive"] }
serde_json = "1"
thiserror = "*"
mujoco-rs = "*"

[dev-dependencies]
ordered-float = "*"
