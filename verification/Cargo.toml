[package]
name = "fake"
version = "0.1.0"
edition = "2021"
publish = false

[dependencies]
anyhow = "1"
argh = "0.1"
camino = "1"
cranelift-entity = "0.103"
figment = { version = "0.10", features = ["toml"] }
pathdiff = { version = "0.2", features = ["camino"] }
serde = { version = "1", features = ["derive"] }
