[package]
name = "recipe_tracker"
version = "0.1.0"
edition = "2021"
publish = false

[dependencies]
lzma-rs = "*"
ureq = "*"
serde = { version = "*", features = ["derive"] }
serde_json = "*"
scraper = "*"
dirs = "*"
anyhow = "*"
