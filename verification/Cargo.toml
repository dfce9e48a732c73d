[package]
name = "image_compression"
version = "0.1.0"
edition = "2021"
publish = false

[dependencies]
clap = "3.2"
config = "0.11"
flate2 = "1"
image = "0.24"
log = "0.4"
serde = { version = "1", features = ["derive"] }
thiserror = "1"
