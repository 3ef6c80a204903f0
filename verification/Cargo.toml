[package]
name = "monaka_vfs"
version = "0.1.0"
edition = "2021"
publish = false

[dependencies]
uuid = "1"
serde = { version = "1", features = ["derive"] }
serde_json = "1"
serde_bytes = "0.11"
anyhow = "1"

[dev-dependencies]
prost = "0.13"
