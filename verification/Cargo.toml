[package]
name = "ripit"
version = "0.1.0"
edition = "2021"
publish = false

[dependencies]
regex = "1"
git2 = { version = "0.19", default-features = false }
clap = { version = "2", features = ["yaml"] }
serde = { version = "1", features = ["derive"] }
serde_yaml = "0.9"
