[package]
name = "navm"
version = "0.1.0"
edition = "2021"
publish = false

[dependencies]
narsese = "*"
serde = { version = "1", features = ["derive"] }
serde_json = "1"
