[package]
name = "xsynth"
version = "0.1.0"
edition = "2021"
publish = false

[dependencies]
rustc-hash = "*"
soundfont = "*"
crossbeam-channel = "*"
biquad = "*"
cpal = "*"
hotwatch = "*"
hound = "*"
rayon = "*"
serde = { version = "*", features = ["derive"] }
simdeez = "*"
spin_sleep = "*"
thiserror = "*"
cfg-if = "*"
