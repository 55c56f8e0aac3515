[package]
name = "id3_sidecar"
version = "0.1.0"
edition = "2021"
publish = false

[dependencies]
json = "*"
id3 = "*"
clap = { version = "*", features = ["derive"] }
