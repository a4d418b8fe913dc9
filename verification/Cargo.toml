[package]
name = "screen_ocr"
version = "0.1.0"
edition = "2021"
publish = false

[dependencies]
image = { version = "0.25", default-features = false, features = ["png"] }
imageproc = { version = "0.25", default-features = false }
ndarray = "0.17"
ort = { version = "2.0.0-rc.10", default-features = false, features = ["std", "ndarray", "load-dynamic"] }
tokenizers = "*"
base64 = "0.22"
serde = { version = "1", features = ["derive"] }
thiserror = "*"
anyhow = "1"
