[package]
name = "whisper"
version = "0.1.0"
edition = "2021"
publish = false

[dependencies]
anyhow = "*"
candle-core = "*"
candle-nn = "*"
candle-transformers = "*"
hound = "*"
rand = "*"
safetensors = "*"
serde = { version = "*", features = ["derive"] }
serde_json = "*"
tokenizers = { version = "*", default-features = false, features = ["unstable_wasm"] }
