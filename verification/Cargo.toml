[package]
name = "mangalize"
version = "0.1.0"
edition = "2021"
publish = false

[dependencies]
anyhow = "=1.0.104"
base64 = "=0.22.1"
image = { version = "=0.25.10", default-features = false, features = ["jpeg", "png", "webp", "gif", "bmp"] }
zip = { version = "=2.6.1", default-features = false, features = ["deflate"] }
serde = { version = "=1.0.229", features = ["derive"] }
serde_json = "=1.0.154"
clap = { version = "=4.6.7", features = ["derive"] }
ureq = "=2.12.1"
rusqlite = "=0.41.1"
