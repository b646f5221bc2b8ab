[package]
name = "mdshelf"
version = "0.1.0"
edition = "2021"
publish = false

[dependencies]
sha2 = "=0.10.9"
base64 = "=0.22.1"
percent-encoding = "=2.3.2"
rand = "=0.9.5"
serde = { version = "=1.0.229", features = ["derive"] }
serde_json = "=1.0.154"
toml = "=0.8.23"
anyhow = "=1.0.104"
gray_matter = "=0.3.2"
clap = { version = "=4.6.7", features = ["derive"] }
walkdir = "=2.5.0"
shellexpand = "=3.1.2"
comrak = { version = "=0.59.0", default-features = false }
