[package]
name = "gallery"
version = "0.1.0"
edition = "2021"
publish = false

[dependencies]
anyhow = "*"
axum = { version = "*", features = ["ws", "multipart"] }
axum_typed_multipart = "*"
clap = { version = "*", features = ["derive"] }
env_logger = "*"
highway = "*"
image = "*"
kamadak-exif = "*"
log = "*"
serde = { version = "*", features = ["derive"] }
serde_json = "*"
tempfile = "*"
thiserror = "*"
time = { version = "*", features = ["formatting"] }
tokio = { version = "*", features = ["full"] }
tower-http = { version = "*", features = ["fs"] }
