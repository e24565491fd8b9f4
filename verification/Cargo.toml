[package]
name = "media_indexer"
version = "0.1.0"
edition = "2021"
publish = false

[dependencies]
rand = "0.9"
sha2 = "0.10"
urlencoding = "2"
walkdir = "2"
image = { version = "0.25", default-features = false, features = ["jpeg", "png", "gif", "bmp", "webp", "tiff"] }
serde = { version = "1", features = ["derive"] }
serde_json = "1"
clap = { version = "4", features = ["derive"] }
expanduser = "1"
log = "0.4"
env_logger = "0.11"
anyhow = "1"
rayon = "1"
tokio = { version = "1", features = ["rt-multi-thread", "macros", "sync"] }
axum = "0.8"
