[package]
name = "moon_registry"
version = "0.1.0"
edition = "2021"
publish = false

[dependencies]
actix-web = "4"
dotenvy = "0.15"
env_logger = "*"
log = "0.4"
mongodb = "*"
serde = { version = "1", features = ["derive"] }
serde_json = "1"
