[package]
name = "mini_rag"
version = "0.1.0"
edition = "2021"
publish = false

[dependencies]
regex = "1"
serde = { version = "1", features = ["derive"] }
serde_json = "1"
ureq = "*"
ndarray = "*"
tokenizers = "*"
ort = "=2.0.0-rc.13"
