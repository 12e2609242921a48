[package]
name = "midi_synth"
version = "0.1.0"
edition = "2021"
publish = false

[dependencies]
serde = { version = "=1.0.229", features = ["derive"] }
serde_json = "=1.0.151"
rodio = { version = "=0.22.2", default-features = false, features = ["playback"] }
