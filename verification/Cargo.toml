[package]
name = "sonnetics-core"
version = "0.1.0"
edition = "2021"
publish = false

[dependencies]
resampler = "=0.5.2"
anyhow = "=1.0.104"
serde = { version = "=1.0.229", features = ["derive"] }
serde_json = "=1.0.154"
tract-onnx = "=0.23.9"
ndarray = "=0.16.1"
mel_spec = "=0.5.0"
cpal = "=0.18.2"
reqwest = { version = "=0.13.5", features = ["blocking"] }
flate2 = "=1.1.10"
tar = "=0.4.46"
