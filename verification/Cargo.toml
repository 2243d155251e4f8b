[package]
name = "mc_art_adder"
version = "0.1.0"
edition = "2021"
publish = false

[dependencies]
image = "*"

[dev-dependencies]
serde_json = "*"
