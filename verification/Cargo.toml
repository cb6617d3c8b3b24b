[package]
name = "cochlea"
version = "0.1.0"
edition = "2021"
publish = false

[dependencies]
serde_json = "1"
serde = { version = "1", features = ["derive"] }
hound = "3"
symphonia = { version = "*", features = ["mp3"] }
libm = "0.2"
rustfft = "6"
ebur128 = "0.1"
