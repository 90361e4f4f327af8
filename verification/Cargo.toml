[package]
name = "voice_features"
version = "0.1.0"
edition = "2021"
publish = false

[dependencies]
claxon = "*"
csv = "*"
indicatif = "*"
ndarray = "*"
ndarray-npy = "*"
pyin = "*"
rayon = "*"
rubato = "*"
rustfft = "*"
