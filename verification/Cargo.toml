[package]
name = "tilemap"
version = "0.1.0"
edition = "2021"
publish = false

[dependencies]
image = { version = "*", default-features = false, features = ["png"] }
zip = { version = "*", default-features = false, features = ["deflate"] }
num_cpus = "*"
log = "*"
env_logger = "*"
clap = "*"
serde = { version = "*", features = ["derive"] }
serde_json = "*"
