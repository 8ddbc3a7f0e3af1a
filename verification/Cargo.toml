[package]
name = "gpx_file_processor"
version = "0.1.0"
edition = "2021"
publish = false

[dependencies]
gpx = "*"
flate2 = "*"
serde = { version = "*", features = ["derive"] }
serde_json = "*"
