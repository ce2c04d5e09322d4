[package]
name = "impertio"
version = "0.1.0"
edition = "2021"
publish = false

[dependencies]
anyhow = "*"
build_html = "*"
chrono = "*"
clap = { version = "*", features = ["derive"] }
dyn-clone = "*"
env_logger = "*"
log = "*"
rss = "*"
serde = { version = "*", features = ["derive"] }
serde_yaml = "*"
sitemap-rs = "*"
tera = "*"
walkdir = "*"
