[package]
name = "terrain_params"
version = "0.1.0"
edition = "2021"
publish = false

[dependencies]
clap = { version = "*", features = ["derive"] }
fastlem = "*"
image = "*"
noise = "*"
serde = { version = "*", features = ["derive"] }
serde_json = "*"
terrain-graph = "*"
