[package]
name = "teenyformers"
version = "0.1.0"
edition = "2021"
publish = false

[dependencies]
anyhow = "1"
safetensors = "=0.7.0"
serde = { version = "1", features = ["derive"] }
serde_json = "1"
teeny-core = { version = "=0.2.0", features = ["std"] }
teeny-cuda = "=0.2.0"
teeny-data = "=0.2.0"
teeny-kernels = { version = "=0.2.0", default-features = false, features = ["training"] }
teeny-macros = "=0.2.0"
teeny-triton = "=0.2.0"
