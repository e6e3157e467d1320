[package]
name = "roast"
version = "0.1.0"
edition = "2021"
publish = false

[dependencies]
clap = { version = "*", features = ["derive"] }
color-eyre = "*"
crossbeam-channel = "*"
eyre = "*"
log = "*"
rayon = "*"
serde_json = "*"
