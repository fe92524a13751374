[package]
name = "dispersion_equalizer"
version = "0.1.0"
edition = "2021"
publish = false

[dependencies]
serde = { version = "=1.0.229", features = ["derive"] }
arrayvec = "=0.7.8"
