[package]
name = "pixel_engine"
version = "0.1.0"
edition = "2021"
publish = false

[dependencies]
image = "=0.24.9"
imageproc = "=0.23.1"
rand = "=0.8.8"
anyhow = "=1.0.104"
axum = { version = "=0.6.20", features = ["multipart"] }
axum-macros = "=0.3.8"
tokio = { version = "=1.54.1", features = ["full"] }
serde = { version = "=1.0.229", features = ["derive"] }
reqwest = { version = "=0.11.27", default-features = false }
nokhwa = "=0.10.11"
tract-onnx = "0.21"
# No file of this crate names kstring. The build of tract-onnx pulls it in,
# and its release 2.0.5 asks for a newer compiler than the other packages
# do. The line holds it at the release before.
kstring = "=2.0.2"
