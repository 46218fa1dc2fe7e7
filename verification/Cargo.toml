[package]
name = "satellite_imagery_downloader"
version = "0.1.0"
edition = "2021"
publish = false

[dependencies]
anyhow = "*"
argh = "*"
chrono = "*"
image = { version = "*", default-features = false, features = ["png", "jpeg"] }
indicatif = "*"
open = "*"
rayon = "*"
regex = "*"
reqwest = { version = "*", default-features = false, features = ["blocking"] }
serde_json = "*"
