[package]
name = "stubgen"
version = "0.1.0"
edition = "2021"
publish = false

[dependencies]
regex = "1"
tera = { version = "1", default-features = false }
serde = { version = "1", features = ["derive"] }
serde_json = "1"
ansi_term = "0.12"
