[package]
name = "cooklang_reports"
version = "0.1.0"
edition = "2021"
publish = false

[dependencies]
anyhow = "=1.0.104"
cooklang = { version = "=0.19.0", features = ["pantry"] }
cooklang-find = "=0.10.0"
minijinja = "=2.24.0"
serde = { version = "=1.0.229", features = ["derive"] }
serde_yaml = "=0.9.34"
thiserror = "=2.0.21"
yaml-datastore = "=0.1.0"
