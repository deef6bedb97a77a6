[package]
name = "holly"
version = "0.1.0"
edition = "2021"
publish = false

[dependencies]
unidecode = "*"
tokio = { version = "*", features = ["full"] }
serde = { version = "*", features = ["derive"] }
serde_json = "*"
thirtyfour = "*"
chrono = "*"
rand = "*"
log = "*"
env_logger = "*"
