[package]
name = "farol"
version = "0.1.0"
edition = "2021"
publish = false

[dependencies]
markdown = "=1.0.0"
toml = "=1.1.8"
serde = { version = "=1.0.229", features = ["derive"] }
serde_json = "=1.0.154"
serde_yaml = "=0.9.34"
sha2 = "=0.11.1"
base64 = "=0.22.1"
syntect = "=5.3.0"
two-face = "=0.5.2"
tantivy = { version = "=0.27.0", default-features = false, features = ["stemmer"] }
image = { version = "=0.25.10", default-features = false, features = ["png", "jpeg", "gif", "webp"] }
include_dir = "=0.7.4"
minijinja = { version = "=2.24.0", features = ["loader"] }
redb = "=4.4.0"
rayon = "=1.12.0"
ignore = "=0.4.34"
notify = "=8.2.1"
axum = { version = "=0.8.9", features = ["ws"] }
tokio = { version = "=1.54.1", features = ["full"] }
futures-util = "=0.3.34"
clap = { version = "=4.6.7", features = ["derive"] }
miette = "=7.6.0"
thiserror = "=2.0.21"
tracing = "=0.1.44"
tracing-subscriber = { version = "=0.3.23", features = ["env-filter"] }
