[package]
name = "firefox_brand_generator"
version = "0.1.0"
edition = "2021"
publish = false

[dependencies]
clap = { version = "4", features = ["derive"] }
owo-colors = "4"
serde = { version = "1", features = ["derive"] }
serde_json = "1"
