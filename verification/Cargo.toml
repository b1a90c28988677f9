[package]
name = "spectro_codec"
version = "0.1.0"
edition = "2021"
publish = false

[dependencies]
hound = "3.5"
image = { version = "0.25", default-features = false, features = ["png", "jpeg"] }
rustfft = "6"
serde = { version = "1", features = ["derive"] }
toml = "0.8"
