[package]
name = "spackle"
version = "0.1.0"
edition = "2021"
publish = false

[dependencies]
tera = { version = "1", default-features = false }
async-process = "*"
tokio = { version = "*", features = ["rt"] }
users = "*"
serde = { version = "*", features = ["derive"] }
toml = "*"
walkdir = "*"
