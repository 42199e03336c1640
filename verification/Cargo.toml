[package]
name = "vcs"
version = "0.1.0"
edition = "2021"
publish = false

[dependencies]
sha1 = "=0.10.7"
walkdir = "=2.5.0"
serde = { version = "=1.0.229", features = ["derive"] }
serde_json = "=1.0.151"
serde_with = "=3.24.0"
chrono = "=0.4.45"
clap = { version = "=4.6.7", features = ["derive"] }
