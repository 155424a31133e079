[package]
name = "neural_network"
version = "0.1.0"
edition = "2021"
publish = false

[dependencies]
clap = { version = "4", features = ["derive"] }
flate2 = "1"
nalgebra = "0.33"
rand = "0.8"
ureq = "2"
