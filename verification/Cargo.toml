[package]
name = "pack_preferences"
version = "0.1.0"
edition = "2021"
publish = false

[dependencies]
anyhow = "=1.0.104"
chrono = "=0.4.45"
dirs = "=5.0.1"
eframe = { version = "=0.29.1", default-features = false, features = ["glow"] }
nsvg = { version = "=0.5.1", default-features = false }
reqwest = { version = "=0.12.28", default-features = false, features = ["blocking", "json", "multipart", "rustls-tls"] }
rfd = { version = "0.15", default-features = false, features = ["xdg-portal", "tokio"] }
serde = { version = "=1.0.229", features = ["derive"] }
toml = "=0.8.23"
