[package]
name = "video_to_df"
version = "0.1.0"
edition = "2021"
publish = false

[dependencies]
base64 = "*"
flate2 = "*"
rayon = "*"
image = "*"
serde = { version = "*", features = ["derive"] }
serde_json = "*"
