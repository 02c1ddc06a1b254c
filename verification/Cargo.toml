[package]
name = "pathfinder"
version = "0.1.0"
edition = "2021"
publish = false

[dependencies]
rustc-hash = "1"
actix-web = "4"
actix-cors = "0.6"
serde = { version = "1", features = ["derive"] }
serde_json = "1"
env_logger = "0.10"
thiserror = "1"
